//! A balance ledger: each account has a free balance and a reserved one.
//! Reserving moves value from free to reserved, unreserving moves it back,
//! and a transfer moves free value between accounts.
use std::collections::HashMap;
use vstd::prelude::*;

verus! {

broadcast use vstd::std_specs::hash::group_hash_axioms;

/// An account identifier.
pub type AccountId = u64;

/// An amount of the fungible balance.
pub type Balance = u128;

/// The two balances of one account.
#[derive(Clone, Copy, Debug, PartialEq, Eq, Structural)]
pub struct AccountData {
    pub free: u128,
    pub reserved: u128,
}

/// Why a ledger operation was refused.
#[derive(Clone, Copy, Debug, PartialEq, Eq, Structural)]
pub enum BalanceError {
    /// The free balance does not cover the amount.
    InsufficientBalance,
    /// The receiving account's total would not fit in a `u128`.
    Overflow,
}

/// The data of an account that holds nothing.
pub open spec fn empty_account() -> AccountData {
    AccountData { free: 0, reserved: 0 }
}

/// The account data that a map of accounts holds for `who`; absent accounts hold nothing.
pub open spec fn account_of(m: Map<AccountId, AccountData>, who: AccountId) -> AccountData {
    if m.contains_key(who) {
        m[who]
    } else {
        empty_account()
    }
}

/// `m` after `amount` of `who`'s free balance has moved to its reserved balance.
pub open spec fn after_reserve(m: Map<AccountId, AccountData>, who: AccountId, amount: u128) -> Map<AccountId, AccountData> {
    let d = account_of(m, who);
    m.insert(who, AccountData { free: (d.free - amount) as u128, reserved: (d.reserved + amount) as u128 })
}

/// `m` after up to `amount` of `who`'s reserved balance has moved back to its free balance.
pub open spec fn after_unreserve(m: Map<AccountId, AccountData>, who: AccountId, amount: u128) -> Map<AccountId, AccountData> {
    let d = account_of(m, who);
    let moved = if amount <= d.reserved { amount } else { d.reserved };
    m.insert(who, AccountData { free: (d.free + moved) as u128, reserved: (d.reserved - moved) as u128 })
}

/// `m` after `amount` of free balance has moved from `from` to `to`.
pub open spec fn after_transfer(m: Map<AccountId, AccountData>, from: AccountId, to: AccountId, amount: u128) -> Map<AccountId, AccountData> {
    if from == to {
        m
    } else {
        let f = account_of(m, from);
        let t = account_of(m, to);
        m.insert(from, AccountData { free: (f.free - amount) as u128, reserved: f.reserved }).insert(
            to,
            AccountData { free: (t.free + amount) as u128, reserved: t.reserved },
        )
    }
}

/// A payment between two accounts takes exactly `amount` from the payer's
/// free balance and adds exactly `amount` to the payee's, and leaves both
/// reserved balances as they were.
pub proof fn lemma_payment_moves_amount(m: Map<AccountId, AccountData>, from: AccountId, to: AccountId, amount: u128)
    requires
        from != to,
        amount <= account_of(m, from).free,
        account_of(m, to).free + amount <= u128::MAX,
    ensures
        account_of(after_transfer(m, from, to, amount), from).free == account_of(m, from).free - amount,
        account_of(after_transfer(m, from, to, amount), to).free == account_of(m, to).free + amount,
        account_of(after_transfer(m, from, to, amount), from).reserved == account_of(m, from).reserved,
        account_of(after_transfer(m, from, to, amount), to).reserved == account_of(m, to).reserved,
{
}

pub struct Balances {
    accounts: HashMap<AccountId, AccountData>,
}

impl View for Balances {
    type V = Map<AccountId, AccountData>;

    closed spec fn view(&self) -> Map<AccountId, AccountData> {
        self.accounts@
    }
}

impl Balances {
    /// The account data of `who`.
    pub open spec fn account(&self, who: AccountId) -> AccountData {
        account_of(self@, who)
    }

    pub open spec fn free(&self, who: AccountId) -> u128 {
        self.account(who).free
    }

    pub open spec fn reserved(&self, who: AccountId) -> u128 {
        self.account(who).reserved
    }

    /// Every account's total (free plus reserved) fits in a `u128`.
    pub open spec fn wf(&self) -> bool {
        forall|a: AccountId| #[trigger] self.account(a).free + self.account(a).reserved <= u128::MAX
    }

    proof fn lemma_insert_keeps_wf(&self, other: &Self, who: AccountId, d: AccountData)
        requires
            self.wf(),
            other@ == self@.insert(who, d),
            d.free + d.reserved <= u128::MAX,
        ensures
            other.wf(),
    {
        assert forall|a: AccountId| #[trigger] other.account(a).free + other.account(a).reserved <= u128::MAX by {
            if a != who {
                assert(other.account(a) == self.account(a));
            }
        }
    }

    /// A ledger in which every account holds nothing.
    pub fn new() -> (r: Self)
        ensures
            r.wf(),
            r@ == Map::<AccountId, AccountData>::empty(),
    {
        Balances { accounts: HashMap::new() }
    }

    /// The free balance of `who`.
    pub fn free_balance(&self, who: AccountId) -> (r: Balance)
        ensures
            r == self.free(who),
    {
        match self.accounts.get(&who) {
            Some(d) => d.free,
            None => 0,
        }
    }

    /// The reserved balance of `who`.
    pub fn reserved_balance(&self, who: AccountId) -> (r: Balance)
        ensures
            r == self.reserved(who),
    {
        match self.accounts.get(&who) {
            Some(d) => d.reserved,
            None => 0,
        }
    }

    /// Sets the free balance of `who`, keeping its reserved balance; refused
    /// when the account's total would not fit in a `u128`.
    pub fn set_free_balance(&mut self, who: AccountId, free: Balance) -> (r: Result<(), BalanceError>)
        requires
            old(self).wf(),
        ensures
            final(self).wf(),
            r is Ok <==> free + old(self).reserved(who) <= u128::MAX,
            r is Ok ==> final(self)@ == old(self)@.insert(
                who,
                AccountData { free, reserved: old(self).reserved(who) },
            ),
            r is Err ==> r == Err::<(), BalanceError>(BalanceError::Overflow) && *final(self) == *old(self),
    {
        let reserved = self.reserved_balance(who);
        if reserved > u128::MAX - free {
            return Err(BalanceError::Overflow);
        }
        self.accounts.insert(who, AccountData { free, reserved });
        proof {
            old(self).lemma_insert_keeps_wf(self, who, AccountData { free, reserved });
        }
        Ok(())
    }

    /// Moves `amount` of `who`'s free balance to its reserved balance.
    pub fn reserve(&mut self, who: AccountId, amount: Balance) -> (r: Result<(), BalanceError>)
        requires
            old(self).wf(),
        ensures
            final(self).wf(),
            r is Ok <==> amount <= old(self).free(who),
            r is Ok ==> final(self)@ == after_reserve(old(self)@, who, amount),
            r is Err ==> r == Err::<(), BalanceError>(BalanceError::InsufficientBalance) && *final(self) == *old(self),
    {
        let free = self.free_balance(who);
        let reserved = self.reserved_balance(who);
        if free < amount {
            return Err(BalanceError::InsufficientBalance);
        }
        assert(free + reserved <= u128::MAX);
        let d = AccountData { free: free - amount, reserved: reserved + amount };
        self.accounts.insert(who, d);
        proof {
            old(self).lemma_insert_keeps_wf(self, who, d);
        }
        Ok(())
    }

    /// Moves up to `amount` of `who`'s reserved balance back to its free
    /// balance, and returns the part of `amount` that was not reserved.
    pub fn unreserve(&mut self, who: AccountId, amount: Balance) -> (r: Balance)
        requires
            old(self).wf(),
        ensures
            final(self).wf(),
            r == amount - (if amount <= old(self).reserved(who) { amount } else { old(self).reserved(who) }),
            final(self)@ == after_unreserve(old(self)@, who, amount),
    {
        let free = self.free_balance(who);
        let reserved = self.reserved_balance(who);
        let moved = if amount <= reserved { amount } else { reserved };
        assert(free + reserved <= u128::MAX);
        let d = AccountData { free: free + moved, reserved: reserved - moved };
        self.accounts.insert(who, d);
        proof {
            old(self).lemma_insert_keeps_wf(self, who, d);
        }
        amount - moved
    }

    /// Moves `amount` of `from`'s free balance to `to`'s free balance. A
    /// transfer to oneself changes nothing.
    pub fn transfer(&mut self, from: AccountId, to: AccountId, amount: Balance) -> (r: Result<(), BalanceError>)
        requires
            old(self).wf(),
        ensures
            final(self).wf(),
            r is Ok <==> from == to || (amount <= old(self).free(from)
                && old(self).free(to) + old(self).reserved(to) + amount <= u128::MAX),
            r == Err::<(), BalanceError>(BalanceError::InsufficientBalance) <==> from != to && amount > old(self).free(from),
            r is Err ==> *final(self) == *old(self),
            r is Ok && from == to ==> *final(self) == *old(self),
            r is Ok ==> final(self)@ == after_transfer(old(self)@, from, to, amount),
    {
        if from == to {
            return Ok(());
        }
        let from_free = self.free_balance(from);
        let from_reserved = self.reserved_balance(from);
        let to_free = self.free_balance(to);
        let to_reserved = self.reserved_balance(to);
        if from_free < amount {
            return Err(BalanceError::InsufficientBalance);
        }
        if to_free + to_reserved > u128::MAX - amount {
            return Err(BalanceError::Overflow);
        }
        assert(from_free + from_reserved <= u128::MAX);
        let d_from = AccountData { free: from_free - amount, reserved: from_reserved };
        let d_to = AccountData { free: to_free + amount, reserved: to_reserved };
        self.accounts.insert(from, d_from);
        let ghost mid = *self;
        proof {
            old(self).lemma_insert_keeps_wf(&mid, from, d_from);
            assert(mid.account(to) == old(self).account(to));
        }
        self.accounts.insert(to, d_to);
        proof {
            mid.lemma_insert_keeps_wf(self, to, d_to);
        }
        Ok(())
    }
}

} // verus!
