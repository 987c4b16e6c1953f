//! The funds ledger: free and reserved balances per account, with atomic
//! reserve, unreserve and transfer operations.
//!
//! Every operation either commits all of its effect or reports an error and
//! changes nothing.

use vstd::prelude::*;

verus! {

/// A failure reported by the funds ledger.
#[derive(Clone, Copy, PartialEq, Eq, Debug)]
pub enum FundsError {
    /// The paying account's free balance is below the amount.
    InsufficientBalance,
    /// The payment would leave the paying account below the minimum balance
    /// it must keep to stay alive.
    KeepAlive,
    /// The receiving side's balance cannot represent the new total.
    Overflow,
}

/// Free and reserved funds of one account.
#[derive(Clone, Copy, PartialEq, Eq, Debug)]
pub struct AccountData {
    pub free: u128,
    pub reserved: u128,
}

/// The smaller of two amounts.
pub open spec fn min_u128(a: u128, b: u128) -> u128 {
    if a <= b {
        a
    } else {
        b
    }
}

/// A sum that stops at the largest representable amount.
pub open spec fn cap_add_u128(a: u128, b: u128) -> u128 {
    if a + b > u128::MAX {
        u128::MAX
    } else {
        (a + b) as u128
    }
}

/// Looks `who` up among the entries; entries added later take precedence,
/// though under `unique_accounts` at most one entry per account exists.
pub open spec fn account_lookup(s: Seq<(u64, AccountData)>, who: u64) -> Option<AccountData>
    decreases s.len(),
{
    if s.len() == 0 {
        None
    } else if s.last().0 == who {
        Some(s.last().1)
    } else {
        account_lookup(s.drop_last(), who)
    }
}

/// No two entries name the same account.
pub open spec fn unique_accounts(s: Seq<(u64, AccountData)>) -> bool {
    forall|i: int, j: int|
        0 <= i < j < s.len() ==> (#[trigger] s[i]).0 != (#[trigger] s[j]).0
}

proof fn lemma_lookup_found(s: Seq<(u64, AccountData)>, who: u64, i: int)
    requires
        unique_accounts(s),
        0 <= i < s.len(),
        s[i].0 == who,
    ensures
        account_lookup(s, who) == Some(s[i].1),
    decreases s.len(),
{
    if i == s.len() - 1 {
    } else {
        assert(s.last().0 != who);
        lemma_lookup_found(s.drop_last(), who, i);
    }
}

proof fn lemma_lookup_absent(s: Seq<(u64, AccountData)>, who: u64)
    requires
        forall|i: int| 0 <= i < s.len() ==> (#[trigger] s[i]).0 != who,
    ensures
        account_lookup(s, who) is None,
    decreases s.len(),
{
    if s.len() == 0 {
    } else {
        assert(s.last().0 != who);
        lemma_lookup_absent(s.drop_last(), who);
    }
}

proof fn lemma_lookup_push(s: Seq<(u64, AccountData)>, who: u64, d: AccountData, w: u64)
    ensures
        account_lookup(s.push((who, d)), w) == (if w == who {
            Some(d)
        } else {
            account_lookup(s, w)
        }),
{
    let t = s.push((who, d));
    assert(t.last() == (who, d));
    assert(t.drop_last() =~= s);
}

proof fn lemma_lookup_update(s: Seq<(u64, AccountData)>, i: int, d: AccountData, w: u64)
    requires
        unique_accounts(s),
        0 <= i < s.len(),
    ensures
        account_lookup(s.update(i, (s[i].0, d)), w) == (if w == s[i].0 {
            Some(d)
        } else {
            account_lookup(s, w)
        }),
    decreases s.len(),
{
    let t = s.update(i, (s[i].0, d));
    assert(unique_accounts(t));
    if w == s[i].0 {
        lemma_lookup_found(t, w, i);
    } else if i == s.len() - 1 {
        assert(t.drop_last() =~= s.drop_last());
    } else {
        assert(t.last() == s.last());
        if s.last().0 == w {
        } else {
            assert(t.drop_last() =~= s.drop_last().update(i, (s[i].0, d)));
            assert(s.drop_last()[i] == s[i]);
            lemma_lookup_update(s.drop_last(), i, d, w);
        }
    }
}

/// The funds ledger. `existential_deposit` is the minimum free balance a
/// paying account must keep when a transfer is asked to keep it alive.
pub struct Balances {
    accounts: Vec<(u64, AccountData)>,
    existential_deposit: u128,
}

impl Balances {
    /// The recorded entry for `who`, if any.
    pub closed spec fn account_of(self, who: u64) -> Option<AccountData> {
        account_lookup(self.accounts@, who)
    }

    /// The free balance of `who`; an account never recorded holds nothing.
    pub open spec fn free_of(self, who: u64) -> u128 {
        match self.account_of(who) {
            Some(d) => d.free,
            None => 0,
        }
    }

    /// The reserved balance of `who`.
    pub open spec fn reserved_of(self, who: u64) -> u128 {
        match self.account_of(who) {
            Some(d) => d.reserved,
            None => 0,
        }
    }

    /// The minimum balance a kept-alive payer must retain.
    pub closed spec fn ed(self) -> u128 {
        self.existential_deposit
    }

    pub closed spec fn wf(self) -> bool {
        unique_accounts(self.accounts@)
    }

    /// Whether `who` can move `amount` from free to reserved.
    pub open spec fn can_reserve(self, who: u64, amount: u128) -> bool {
        self.free_of(who) >= amount && self.reserved_of(who) + amount <= u128::MAX
    }

    /// The error a transfer of `amount` from `from` to `to` would report, or
    /// `None` if it would succeed. Checked in this order: the payer's free
    /// balance covers the amount; the receiver's balance can represent the
    /// new total; a kept-alive payer retains the minimum balance. A transfer
    /// to oneself moves nothing and only requires the amount to be covered.
    pub open spec fn transfer_error(
        self,
        from: u64,
        to: u64,
        amount: u128,
        keep_alive: bool,
    ) -> Option<FundsError> {
        if self.free_of(from) < amount {
            Some(FundsError::InsufficientBalance)
        } else if from != to && self.free_of(to) + amount > u128::MAX {
            Some(FundsError::Overflow)
        } else if from != to && keep_alive && self.free_of(from) - amount < self.ed() {
            Some(FundsError::KeepAlive)
        } else {
            None
        }
    }

    /// An empty ledger in which every account holds nothing.
    pub fn new(existential_deposit: u128) -> (r: Balances)
        ensures
            r.wf(),
            r.ed() == existential_deposit,
            forall|w: u64| r.free_of(w) == 0 && r.reserved_of(w) == 0,
    {
        let r = Balances { accounts: Vec::new(), existential_deposit };
        proof {
            assert forall|w: u64| r.free_of(w) == 0 && r.reserved_of(w) == 0 by {
                assert(r.account_of(w) is None);
            }
        }
        r
    }

    fn find(&self, who: u64) -> (r: Option<usize>)
        ensures
            match r {
                Some(i) => i < self.accounts@.len() && self.accounts@[i as int].0 == who,
                None => forall|j: int|
                    0 <= j < self.accounts@.len() ==> (#[trigger] self.accounts@[j]).0 != who,
            },
    {
        let mut i: usize = 0;
        while i < self.accounts.len()
            invariant
                i <= self.accounts@.len(),
                forall|j: int| 0 <= j < i ==> (#[trigger] self.accounts@[j]).0 != who,
            decreases self.accounts@.len() - i,
        {
            if self.accounts[i].0 == who {
                return Some(i);
            }
            i = i + 1;
        }
        None
    }

    /// Records `d` as the entry for `who`, leaving every other account as it
    /// was.
    fn set_account(&mut self, who: u64, d: AccountData)
        requires
            old(self).wf(),
        ensures
            final(self).wf(),
            final(self).ed() == old(self).ed(),
            final(self).account_of(who) == Some(d),
            forall|w: u64|
                w != who ==> final(self).account_of(w) == old(self).account_of(w),
    {
        let found = self.find(who);
        match found {
            Some(i) => {
                let ghost s = self.accounts@;
                self.accounts[i] = (who, d);
                proof {
                    assert(s.update(i as int, (who, d)) =~= s.update(
                        i as int,
                        (s[i as int].0, d),
                    ));
                    assert forall|w: u64| true implies account_lookup(
                        self.accounts@,
                        w,
                    ) == (if w == who {
                        Some(d)
                    } else {
                        account_lookup(s, w)
                    }) by {
                        lemma_lookup_update(s, i as int, d, w);
                    }
                }
            },
            None => {
                let ghost s = self.accounts@;
                self.accounts.push((who, d));
                proof {
                    assert forall|w: u64| true implies account_lookup(
                        self.accounts@,
                        w,
                    ) == (if w == who {
                        Some(d)
                    } else {
                        account_lookup(s, w)
                    }) by {
                        lemma_lookup_push(s, who, d, w);
                    }
                    assert(unique_accounts(self.accounts@));
                }
            },
        }
    }

    /// The free balance of `who`.
    pub fn free_balance(&self, who: u64) -> (r: u128)
        requires
            self.wf(),
        ensures
            r == self.free_of(who),
    {
        match self.find(who) {
            Some(i) => {
                proof {
                    lemma_lookup_found(self.accounts@, who, i as int);
                }
                self.accounts[i].1.free
            },
            None => {
                proof {
                    lemma_lookup_absent(self.accounts@, who);
                }
                0
            },
        }
    }

    /// The reserved balance of `who`.
    pub fn reserved_balance(&self, who: u64) -> (r: u128)
        requires
            self.wf(),
        ensures
            r == self.reserved_of(who),
    {
        match self.find(who) {
            Some(i) => {
                proof {
                    lemma_lookup_found(self.accounts@, who, i as int);
                }
                self.accounts[i].1.reserved
            },
            None => {
                proof {
                    lemma_lookup_absent(self.accounts@, who);
                }
                0
            },
        }
    }

    /// Sets the balances of `who` outright, as a genesis configuration does.
    pub fn set_balance(&mut self, who: u64, free: u128, reserved: u128)
        requires
            old(self).wf(),
        ensures
            final(self).wf(),
            final(self).ed() == old(self).ed(),
            final(self).free_of(who) == free,
            final(self).reserved_of(who) == reserved,
            forall|w: u64|
                w != who ==> final(self).free_of(w) == old(self).free_of(w)
                    && final(self).reserved_of(w) == old(self).reserved_of(w),
    {
        self.set_account(who, AccountData { free, reserved });
    }

    /// Moves `amount` of `who`'s free balance into reserve. Fails, changing
    /// nothing, if the free balance is below the amount or the reserve cannot
    /// represent the new total.
    pub fn reserve(&mut self, who: u64, amount: u128) -> (r: Result<(), FundsError>)
        requires
            old(self).wf(),
        ensures
            final(self).wf(),
            final(self).ed() == old(self).ed(),
            r == (if old(self).free_of(who) < amount {
                Err::<(), FundsError>(FundsError::InsufficientBalance)
            } else if old(self).reserved_of(who) + amount > u128::MAX {
                Err::<(), FundsError>(FundsError::Overflow)
            } else {
                Ok::<(), FundsError>(())
            }),
            r is Ok <==> old(self).can_reserve(who, amount),
            r is Ok ==> final(self).free_of(who) == old(self).free_of(who) - amount
                && final(self).reserved_of(who) == old(self).reserved_of(who) + amount,
            r is Err ==> *final(self) == *old(self),
            forall|w: u64|
                w != who ==> final(self).free_of(w) == old(self).free_of(w)
                    && final(self).reserved_of(w) == old(self).reserved_of(w),
    {
        let free = self.free_balance(who);
        let reserved = self.reserved_balance(who);
        if free < amount {
            return Err(FundsError::InsufficientBalance);
        }
        if amount > u128::MAX - reserved {
            return Err(FundsError::Overflow);
        }
        self.set_account(who, AccountData { free: free - amount, reserved: reserved + amount });
        Ok(())
    }

    /// Moves up to `amount` of `who`'s reserve back to the free balance and
    /// returns how much actually moved: the reserve never goes negative, and
    /// the free balance stops at the largest representable amount.
    pub fn unreserve(&mut self, who: u64, amount: u128) -> (moved: u128)
        requires
            old(self).wf(),
        ensures
            final(self).wf(),
            final(self).ed() == old(self).ed(),
            moved == min_u128(amount, old(self).reserved_of(who)),
            final(self).reserved_of(who) == old(self).reserved_of(who) - moved,
            final(self).free_of(who) == cap_add_u128(old(self).free_of(who), moved),
            forall|w: u64|
                w != who ==> final(self).free_of(w) == old(self).free_of(w)
                    && final(self).reserved_of(w) == old(self).reserved_of(w),
    {
        let free = self.free_balance(who);
        let reserved = self.reserved_balance(who);
        let moved = if amount <= reserved {
            amount
        } else {
            reserved
        };
        let new_free = if moved > u128::MAX - free {
            u128::MAX
        } else {
            free + moved
        };
        self.set_account(who, AccountData { free: new_free, reserved: reserved - moved });
        moved
    }

    /// The error `transfer` would report for these arguments, without moving
    /// anything.
    pub fn check_transfer(
        &self,
        from: u64,
        to: u64,
        amount: u128,
        keep_alive: bool,
    ) -> (r: Option<FundsError>)
        requires
            self.wf(),
        ensures
            r == self.transfer_error(from, to, amount, keep_alive),
    {
        let free_from = self.free_balance(from);
        if free_from < amount {
            return Some(FundsError::InsufficientBalance);
        }
        if from == to {
            return None;
        }
        let free_to = self.free_balance(to);
        if amount > u128::MAX - free_to {
            return Some(FundsError::Overflow);
        }
        if keep_alive && free_from - amount < self.existential_deposit {
            return Some(FundsError::KeepAlive);
        }
        None
    }

    /// Moves `amount` from `from`'s free balance to `to`'s. Fails, changing
    /// nothing, exactly when `transfer_error` reports an error for the state
    /// before the call.
    pub fn transfer(
        &mut self,
        from: u64,
        to: u64,
        amount: u128,
        keep_alive: bool,
    ) -> (r: Result<(), FundsError>)
        requires
            old(self).wf(),
        ensures
            final(self).wf(),
            final(self).ed() == old(self).ed(),
            r == (match old(self).transfer_error(from, to, amount, keep_alive) {
                Some(e) => Err::<(), FundsError>(e),
                None => Ok::<(), FundsError>(()),
            }),
            r is Err ==> *final(self) == *old(self),
            r is Ok && from == to ==> *final(self) == *old(self),
            r is Ok && from != to ==> final(self).free_of(from) == old(self).free_of(from)
                - amount && final(self).free_of(to) == old(self).free_of(to) + amount
                && final(self).reserved_of(from) == old(self).reserved_of(from)
                && final(self).reserved_of(to) == old(self).reserved_of(to),
            forall|w: u64|
                w != from && w != to ==> final(self).free_of(w) == old(self).free_of(w)
                    && final(self).reserved_of(w) == old(self).reserved_of(w),
    {
        let free_from = self.free_balance(from);
        if free_from < amount {
            return Err(FundsError::InsufficientBalance);
        }
        if from == to {
            return Ok(());
        }
        let free_to = self.free_balance(to);
        if amount > u128::MAX - free_to {
            return Err(FundsError::Overflow);
        }
        if keep_alive && free_from - amount < self.existential_deposit {
            return Err(FundsError::KeepAlive);
        }
        let reserved_from = self.reserved_balance(from);
        let reserved_to = self.reserved_balance(to);
        self.set_account(from, AccountData { free: free_from - amount, reserved: reserved_from });
        self.set_account(to, AccountData { free: free_to + amount, reserved: reserved_to });
        Ok(())
    }
}

} // verus!
