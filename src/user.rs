//! User accounts: balance in micro-units and the markets the user has bet on.
use vstd::prelude::*;
use crate::elements::UNIT;

verus! {

/// Balance that every newly registered user starts with, in micro-units.
pub const STARTING_BALANCE: u128 = 100 * (UNIT as u128);

/// A registered account.
pub struct User {
    pub id: String,
    pub bio: String,
    pub balance: u128,
    pub history: Vec<u64>,
}

/// `balance + amount`, held at the largest representable balance.
pub open spec fn credited(balance: u128, amount: u128) -> u128 {
    if balance + amount > u128::MAX {
        u128::MAX
    } else {
        (balance + amount) as u128
    }
}

impl User {
    /// A fresh account for `id` with the starting balance and no history.
    pub fn new(id: String, bio: String) -> (r: Self)
        ensures
            r.id@ == id@,
            r.bio@ == bio@,
            r.balance == STARTING_BALANCE,
            r.history@ == Seq::<u64>::empty(),
    {
        User { id, bio, balance: 100 * (UNIT as u128), history: Vec::new() }
    }

    pub fn balance(&self) -> (r: u128)
        ensures
            r == self.balance,
    {
        self.balance
    }

    /// Adds `amount` to the balance, stopping at the largest representable balance.
    pub fn deposit(&mut self, amount: u128)
        ensures
            final(self).balance == credited(old(self).balance, amount),
            final(self).id == old(self).id,
            final(self).bio == old(self).bio,
            final(self).history == old(self).history,
    {
        self.balance = self.balance.saturating_add(amount);
    }

    /// Takes `amount` off the balance; the caller has checked that it is covered.
    pub fn withdraw(&mut self, amount: u128)
        requires
            amount <= old(self).balance,
        ensures
            final(self).balance == old(self).balance - amount,
            final(self).id == old(self).id,
            final(self).bio == old(self).bio,
            final(self).history == old(self).history,
    {
        self.balance = self.balance - amount;
    }

    /// Records that the user has bet on market `market_id`.
    pub fn add_market(&mut self, market_id: u64)
        ensures
            final(self).history@ == old(self).history@.push(market_id),
            final(self).id == old(self).id,
            final(self).bio == old(self).bio,
            final(self).balance == old(self).balance,
    {
        self.history.push(market_id);
    }
}

} // verus!
