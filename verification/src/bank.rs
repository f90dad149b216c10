//! A bank account whose methods chain: each one takes `self` in the form
//! that the next call in the chain needs.
use vstd::prelude::*;

verus! {

pub struct BankAccount {
    balance: i32,
    owner: String,
}

impl BankAccount {
    pub closed spec fn spec_balance(&self) -> i32 {
        self.balance
    }

    pub closed spec fn spec_owner(&self) -> Seq<char> {
        self.owner@
    }

    /// Opens an account for `owner` holding `initial_balance`.
    pub fn new(owner: String, initial_balance: i32) -> (r: Self)
        ensures
            r.spec_balance() == initial_balance,
            r.spec_owner() == owner@,
    {
        Self { balance: initial_balance, owner }
    }

    /// Hands the account to `new_owner`; the balance stays.
    pub fn change_owner(self, new_owner: String) -> (r: Self)
        ensures
            r.spec_balance() == self.spec_balance(),
            r.spec_owner() == new_owner@,
    {
        let mut this = self;
        this.owner = new_owner;
        this
    }

    pub fn balance(&self) -> (b: i32)
        ensures
            b == self.spec_balance(),
    {
        self.balance
    }

    pub fn owner(&self) -> (o: &String)
        ensures
            o@ == self.spec_owner(),
    {
        &self.owner
    }

    /// Adds `amount` to the balance and returns the account for further calls.
    pub fn deposit(&mut self, amount: i32) -> (r: &mut Self)
        requires
            i32::MIN <= old(self).spec_balance() + amount <= i32::MAX,
        ensures
            r.spec_balance() == old(self).spec_balance() + amount,
            r.spec_owner() == old(self).spec_owner(),
            *final(self) == *final(r),
    {
        self.balance = self.balance + amount;
        self
    }

    /// Whether the balance covers a withdrawal of `amount`.
    pub fn can_withdraw(&self, amount: i32) -> (b: bool)
        ensures
            b == (self.spec_balance() >= amount),
    {
        self.balance >= amount
    }

    /// Takes `amount` off the balance when the balance covers it, and
    /// otherwise leaves the account as it is; returns the account for
    /// further calls.
    pub fn withdraw(&mut self, amount: i32) -> (r: &mut Self)
        requires
            amount < 0 && old(self).spec_balance() >= amount ==> old(self).spec_balance() - amount <= i32::MAX,
        ensures
            old(self).spec_balance() >= amount ==> r.spec_balance() == old(self).spec_balance() - amount,
            old(self).spec_balance() < amount ==> r.spec_balance() == old(self).spec_balance(),
            r.spec_owner() == old(self).spec_owner(),
            *final(self) == *final(r),
    {
        if self.can_withdraw(amount) {
            self.balance = self.balance - amount;
        }
        self
    }

    /// Returns the account itself, for further calls that read it.
    pub fn view_owner(&self) -> (r: &Self)
        ensures
            r == self,
    {
        self
    }
}

/// On an account whose balance is not negative, a deposit followed by a
/// withdrawal of the same amount leaves the balance and the owner as they
/// were.
pub proof fn law_deposit_then_withdraw(before: BankAccount, after_deposit: BankAccount, after: BankAccount, amount: int)
    requires
        before.spec_balance() >= 0,
        after_deposit.spec_balance() == before.spec_balance() + amount,
        after_deposit.spec_owner() == before.spec_owner(),
        after_deposit.spec_balance() >= amount ==> after.spec_balance() == after_deposit.spec_balance() - amount,
        after_deposit.spec_balance() < amount ==> after.spec_balance() == after_deposit.spec_balance(),
        after.spec_owner() == after_deposit.spec_owner(),
    ensures
        after.spec_balance() == before.spec_balance(),
        after.spec_owner() == before.spec_owner(),
{
}

} // verus!
