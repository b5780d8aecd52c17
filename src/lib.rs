//! Settlement core of a binary-outcome prediction market: fixed-point share
//! pricing, the per-market bet ledger, user balances and resolution payouts.
use vstd::prelude::*;

pub mod elements;
pub mod laws;
pub mod market;
pub mod user;

use crate::elements::{Bet, KarmaError, Outcome, UNIT, decided_outcome, lmsr_quote, quote_spec, side_price};
use crate::market::Market;
use crate::user::{User, credited, STARTING_BALANCE};

verus! {

/// The market engine: every registered user and every market, with market ids
/// handed out in order from zero (a market's id is its position).
pub struct KarmaContractState {
    users: Vec<User>,
    markets: Vec<Market>,
}

/// The ledger entry `entry` wins the payout of a market resolved to `outcome` for user `id`.
pub open spec fn wins(entry: (String, Bet), id: Seq<char>, outcome: Outcome) -> bool {
    entry.0@ == id && entry.1.side == outcome
}

/// What a winning bet of `quantity` shares pays: one currency unit per share.
pub open spec fn payout(quantity: u64) -> u128 {
    (quantity * UNIT) as u128
}

/// `u` is the account a first registration of `id` with `bio` creates.
pub open spec fn fresh_user(u: User, id: Seq<char>, bio: Seq<char>) -> bool {
    &&& u.id@ == id
    &&& u.bio@ == bio
    &&& u.balance == STARTING_BALANCE
    &&& u.history@.len() == 0
}

impl KarmaContractState {
    pub closed spec fn users_view(&self) -> Seq<User> {
        self.users@
    }

    pub closed spec fn markets_view(&self) -> Seq<Market> {
        self.markets@
    }

    pub open spec fn is_registered(&self, id: Seq<char>) -> bool {
        exists|i: int| 0 <= i < self.users_view().len() && self.users_view()[i].id@ == id
    }

    /// Position of the account of a registered `id`.
    pub open spec fn user_index(&self, id: Seq<char>) -> int {
        choose|i: int| 0 <= i < self.users_view().len() && self.users_view()[i].id@ == id
    }

    /// What a bet of `quantity` shares on `side` costs in `market`, in micro-units.
    pub open spec fn bet_cost(market: Market, side: Outcome, quantity: u64, trail_weight: u64) -> int {
        side_price(market.num_yes as int, market.num_no as int, trail_weight as int, side)
            * quantity
    }

    /// What `bet` returns: the first failed check in the order market exists,
    /// market open, caller registered, caller has not bet here, cost covered.
    pub open spec fn bet_outcome(&self, caller: Seq<char>, market_id: u64, side: Outcome, quantity: u64, trail_weight: u64) -> Result<(), KarmaError> {
        if market_id >= self.markets_view().len() {
            Err(KarmaError::NoSuchMarket)
        } else if self.markets_view()[market_id as int].resolved {
            Err(KarmaError::MarketAlreadyResolved)
        } else if !self.is_registered(caller) {
            Err(KarmaError::UserNotRegistered)
        } else if self.markets_view()[market_id as int].has_voted(caller) {
            Err(KarmaError::AlreadyVoted)
        } else if Self::bet_cost(self.markets_view()[market_id as int], side, quantity, trail_weight)
            > self.users_view()[self.user_index(caller)].balance {
            Err(KarmaError::InsufficientBalance)
        } else {
            Ok(())
        }
    }

    /// `s1` is `s0` after an accepted bet: the bet is in the market's ledger and
    /// counted on its side, its cost is withdrawn from the bettor, and the market
    /// id is appended to the bettor's history; nothing else changes.
    pub open spec fn bet_applied(s0: Self, s1: Self, caller: String, market_id: u64, side: Outcome, quantity: u64, trail_weight: u64) -> bool {
        let m = s0.markets_view()[market_id as int];
        let nm = s1.markets_view()[market_id as int];
        let ui = s0.user_index(caller@);
        let u = s0.users_view()[ui];
        let nu = s1.users_view()[ui];
        &&& market_id < s0.markets_view().len()
        &&& s0.is_registered(caller@)
        &&& s1.markets_view().len() == s0.markets_view().len()
        &&& forall|k: int| 0 <= k < s0.markets_view().len() && k != market_id
            ==> s1.markets_view()[k] == s0.markets_view()[k]
        &&& nm.voters@ == m.voters@.push((caller, Bet { side, quantity }))
        &&& nm.num_yes == m.num_yes + if side == Outcome::YES { 1int } else { 0int }
        &&& nm.num_no == m.num_no + if side == Outcome::NO { 1int } else { 0int }
        &&& !nm.resolved
        &&& nm.id == m.id && nm.creator == m.creator && nm.liquidity == m.liquidity && nm.question == m.question
        &&& s1.users_view().len() == s0.users_view().len()
        &&& forall|k: int| 0 <= k < s0.users_view().len() && k != ui
            ==> s1.users_view()[k] == s0.users_view()[k]
        &&& nu.balance == u.balance - Self::bet_cost(m, side, quantity, trail_weight)
        &&& nu.history@ == u.history@.push(market_id)
        &&& nu.id == u.id && nu.bio == u.bio
    }

    /// What `resolve` returns: the first failed check in the order market
    /// exists, market open, caller is its creator.
    pub open spec fn resolve_outcome(&self, caller: Seq<char>, market_id: u64) -> Result<(), KarmaError> {
        if market_id >= self.markets_view().len() {
            Err(KarmaError::NoSuchMarket)
        } else if self.markets_view()[market_id as int].resolved {
            Err(KarmaError::MarketAlreadyResolved)
        } else if caller != self.markets_view()[market_id as int].creator@ {
            Err(KarmaError::NotCreator)
        } else {
            Ok(())
        }
    }

    /// `s1` is `s0` after market `market_id` was resolved: the market is closed
    /// with the decided outcome and otherwise unchanged, each account with a
    /// winning entry in its ledger is credited that entry's payout, and every
    /// other balance is unchanged.
    pub open spec fn resolve_applied(s0: Self, s1: Self, market_id: u64) -> bool {
        let m = s0.markets_view()[market_id as int];
        let nm = s1.markets_view()[market_id as int];
        let outcome = decided_outcome(m.num_yes as int, m.num_no as int);
        let us = s0.users_view();
        let nus = s1.users_view();
        &&& market_id < s0.markets_view().len()
        &&& nm.resolved && nm.outcome == Some(outcome)
        &&& nm.id == m.id
        &&& nm.voters == m.voters && nm.num_yes == m.num_yes && nm.num_no == m.num_no
        &&& nm.creator == m.creator && nm.liquidity == m.liquidity && nm.question == m.question
        &&& s1.markets_view().len() == s0.markets_view().len()
        &&& forall|k: int| 0 <= k < s0.markets_view().len() && k != market_id
            ==> s1.markets_view()[k] == s0.markets_view()[k]
        &&& nus.len() == us.len()
        &&& forall|k: int| 0 <= k < us.len() ==> {
            &&& nus[k].id == us[k].id
            &&& nus[k].bio == us[k].bio
            &&& nus[k].history == us[k].history
        }
        &&& forall|k: int, t: int|
            0 <= k < us.len() && 0 <= t < m.voters@.len() && wins(m.voters@[t], us[k].id@, outcome)
                ==> nus[k].balance == credited(us[k].balance, payout(m.voters@[t].1.quantity))
        &&& forall|k: int|
            0 <= k < us.len() && (forall|t: int| 0 <= t < m.voters@.len() ==> !wins(#[trigger] m.voters@[t], us[k].id@, outcome))
                ==> nus[k].balance == us[k].balance
    }

    /// The engine's invariant: each market is well formed and sits at its id,
    /// account ids are distinct, and every bettor of every market is registered.
    pub open spec fn wf(&self) -> bool {
        &&& forall|m: int| 0 <= m < self.markets_view().len() ==> {
            &&& (#[trigger] self.markets_view()[m]).wf()
            &&& self.markets_view()[m].id == m
        }
        &&& forall|i: int, j: int|
            #![trigger self.users_view()[i], self.users_view()[j]]
            0 <= i < self.users_view().len() && 0 <= j < self.users_view().len() && i != j
                ==> self.users_view()[i].id@ != self.users_view()[j].id@
        &&& forall|m: int, k: int|
            0 <= m < self.markets_view().len() && 0 <= k < self.markets_view()[m].voters@.len()
                ==> self.is_registered(#[trigger] self.markets_view()[m].voters@[k].0@)
    }

    /// An engine with no users and no markets.
    pub fn new() -> (r: Self)
        ensures
            r.wf(),
            r.users_view().len() == 0,
            r.markets_view().len() == 0,
    {
        KarmaContractState { users: Vec::new(), markets: Vec::new() }
    }

    fn find_user(&self, id: &String) -> (r: Option<usize>)
        requires
            self.wf(),
        ensures
            r matches Some(i) ==> i < self.users@.len() && self.users@[i as int].id@ == id@
                && i == self.user_index(id@),
            r is None ==> !self.is_registered(id@),
    {
        let mut i: usize = 0;
        while i < self.users.len()
            invariant
                self.wf(),
                0 <= i <= self.users@.len(),
                forall|k: int| 0 <= k < i ==> self.users@[k].id@ != id@,
            decreases self.users@.len() - i,
        {
            if self.users[i].id == *id {
                proof {
                    let j = self.user_index(id@);
                    assert(0 <= j < self.users@.len() && self.users@[j].id@ == id@);
                    if j != i as int {
                        assert(self.users_view()[i as int].id@ != self.users_view()[j].id@);
                    }
                }
                return Some(i);
            }
            i = i + 1;
        }
        None
    }

    /// `caller` buys `quantity` shares of `side` in market `market_id` at the
    /// price quoted before the bet; `trail_weight` is the trailing side's
    /// softmax weight for the market's current counts and liquidity.
    pub fn bet(&mut self, caller: String, market_id: u64, side: Outcome, quantity: u64, trail_weight: u64) -> (r: Result<(), KarmaError>)
        requires
            old(self).wf(),
            quantity > 0,
            1 <= trail_weight <= UNIT,
            market_id < old(self).markets_view().len() ==> old(self).markets_view()[market_id as int].num_yes
                + old(self).markets_view()[market_id as int].num_no < u64::MAX,
        ensures
            final(self).wf(),
            r == old(self).bet_outcome(caller@, market_id, side, quantity, trail_weight),
            r is Err ==> final(self).users_view() == old(self).users_view() && final(self).markets_view()
                == old(self).markets_view(),
            r is Ok ==> Self::bet_applied(*old(self), *final(self), caller, market_id, side, quantity, trail_weight),
    {
        if market_id >= self.markets.len() as u64 {
            return Err(KarmaError::NoSuchMarket);
        }
        let mi = market_id as usize;
        if self.markets[mi].is_resolved() {
            return Err(KarmaError::MarketAlreadyResolved);
        }
        let ui = match self.find_user(&caller) {
            Some(ui) => ui,
            None => {
                return Err(KarmaError::UserNotRegistered);
            },
        };
        if self.markets[mi].has_already_voted(caller.clone()) {
            return Err(KarmaError::AlreadyVoted);
        }
        let (cost_per_yes, cost_per_no) = lmsr_quote(
            self.markets[mi].num_yes,
            self.markets[mi].num_no,
            trail_weight,
        );
        let price: u64 = match side {
            Outcome::YES => cost_per_yes,
            Outcome::NO => cost_per_no,
        };
        assert((price as u128) * (quantity as u128) <= (UNIT as u128) * (u64::MAX as u128)) by (nonlinear_arith)
            requires price <= UNIT;
        let cost: u128 = (price as u128) * (quantity as u128);
        if cost > self.users[ui].balance() {
            return Err(KarmaError::InsufficientBalance);
        }
        let ghost old_markets = self.markets@;
        let ghost old_users = self.users@;
        self.users[ui].add_market(market_id);
        self.users[ui].withdraw(cost);
        self.markets[mi].add_bet(caller, Bet { side, quantity });
        proof {
            assert forall|m: int, k: int|
                0 <= m < self.markets@.len() && 0 <= k < self.markets@[m].voters@.len()
                    implies self.is_registered(#[trigger] self.markets@[m].voters@[k].0@) by {
                if m == mi as int && k == old_markets[m].voters@.len() {
                    assert(self.users_view()[ui as int].id@ == self.markets@[m].voters@[k].0@);
                } else {
                    assert(old_markets[m].voters@[k] == self.markets@[m].voters@[k]);
                    let w = choose|w: int| 0 <= w < old_users.len() && old_users[w].id@ == old_markets[m].voters@[k].0@;
                    assert(self.users_view()[w].id@ == old_users[w].id@);
                }
            }
        }
        Ok(())
    }

    /// The creator of market `market_id` resolves it: the outcome is NO when
    /// NO has strictly more bets, else YES, and each winning bettor is credited
    /// one currency unit per share of their bet.
    pub fn resolve(&mut self, caller: String, market_id: u64) -> (r: Result<(), KarmaError>)
        requires
            old(self).wf(),
        ensures
            final(self).wf(),
            r == old(self).resolve_outcome(caller@, market_id),
            r is Err ==> final(self).users_view() == old(self).users_view() && final(self).markets_view()
                == old(self).markets_view(),
            r is Ok ==> Self::resolve_applied(*old(self), *final(self), market_id),
    {
        if market_id >= self.markets.len() as u64 {
            return Err(KarmaError::NoSuchMarket);
        }
        let mi = market_id as usize;
        let ghost old_markets = self.markets@;
        match self.markets[mi].resolve(&caller) {
            Ok(()) => {},
            Err(e) => {
                proof {
                    assert(self.markets@ =~= old_markets);
                }
                return Err(e);
            },
        }
        proof {
            assert forall|m: int, k: int|
                0 <= m < self.markets@.len() && 0 <= k < self.markets@[m].voters@.len()
                    implies self.is_registered(#[trigger] self.markets@[m].voters@[k].0@) by {
                assert(old_markets[m].voters@[k] == self.markets@[m].voters@[k]);
                assert(old(self).markets@[m].voters@[k] == old_markets[m].voters@[k]);
                let w = choose|w: int| 0 <= w < old(self).users@.len() && old(self).users@[w].id@ == old_markets[m].voters@[k].0@;
                assert(self.users_view()[w].id@ == old(self).users@[w].id@);
            }
        }
        let outcome = if self.markets[mi].num_no > self.markets[mi].num_yes {
            Outcome::NO
        } else {
            Outcome::YES
        };
        let ghost resolved_markets = self.markets@;
        let ghost old_users = self.users@;
        let ghost voters = self.markets@[mi as int].voters@;
        let n = self.markets[mi].voters.len();
        let mut j: usize = 0;
        while j < n
            invariant
                self.wf(),
                self.markets@ == resolved_markets,
                mi < self.markets@.len(),
                voters == self.markets@[mi as int].voters@,
                n == voters.len(),
                0 <= j <= n,
                self.users@.len() == old_users.len(),
                forall|k: int| 0 <= k < old_users.len() ==> {
                    &&& self.users@[k].id == old_users[k].id
                    &&& self.users@[k].bio == old_users[k].bio
                    &&& self.users@[k].history == old_users[k].history
                },
                forall|k: int, t: int|
                    0 <= k < old_users.len() && 0 <= t < j && wins(voters[t], old_users[k].id@, outcome)
                        ==> self.users@[k].balance == credited(old_users[k].balance, payout(voters[t].1.quantity)),
                forall|k: int|
                    0 <= k < old_users.len() && (forall|t: int| 0 <= t < j ==> !wins(#[trigger] voters[t], old_users[k].id@, outcome))
                        ==> self.users@[k].balance == old_users[k].balance,
            decreases n - j,
        {
            let bet = self.markets[mi].voters[j].1;
            if bet.side == outcome {
                let voter = self.markets[mi].voters[j].0.clone();
                let amount: u128 = (bet.quantity as u128) * (UNIT as u128);
                match self.find_user(&voter) {
                    Some(ui) => {
                        let ghost before = self.users@;
                        self.users[ui].deposit(amount);
                        proof {
                            assert forall|k: int, t: int|
                                0 <= k < old_users.len() && 0 <= t < j + 1 && wins(voters[t], old_users[k].id@, outcome)
                                    implies self.users@[k].balance == credited(old_users[k].balance, payout(voters[t].1.quantity)) by {
                                if k == ui as int {
                                    if t < j {
                                        assert(voters[t].0@ != voters[j as int].0@);
                                    }
                                } else if t == j as int {
                                    assert(old_users[k].id@ != old_users[ui as int].id@);
                                }
                            }
                            assert forall|k: int|
                                0 <= k < old_users.len() && (forall|t: int| 0 <= t < j + 1 ==> !wins(#[trigger] voters[t], old_users[k].id@, outcome))
                                    implies self.users@[k].balance == old_users[k].balance by {
                                assert(!wins(voters[j as int], old_users[k].id@, outcome));
                                assert forall|t: int| 0 <= t < j implies !wins(#[trigger] voters[t], old_users[k].id@, outcome) by {}
                            }
                            assert forall|m: int, k: int|
                                0 <= m < self.markets@.len() && 0 <= k < self.markets@[m].voters@.len()
                                    implies self.is_registered(#[trigger] self.markets@[m].voters@[k].0@) by {
                                let w = choose|w: int| 0 <= w < before.len() && before[w].id@ == self.markets@[m].voters@[k].0@;
                                assert(self.users_view()[w].id@ == before[w].id@);
                            }
                        }
                    },
                    None => {
                        proof {
                            assert(self.is_registered(self.markets@[mi as int].voters@[j as int].0@));
                        }
                    },
                }
            } else {
                proof {
                    assert forall|k: int|
                        0 <= k < old_users.len() && (forall|t: int| 0 <= t < j + 1 ==> !wins(#[trigger] voters[t], old_users[k].id@, outcome))
                            implies self.users@[k].balance == old_users[k].balance by {
                        assert forall|t: int| 0 <= t < j implies !wins(#[trigger] voters[t], old_users[k].id@, outcome) by {}
                    }
                }
            }
            j = j + 1;
        }
        Ok(())
    }

    /// Registers `caller` with `bio` and the starting balance; an id that is
    /// already registered keeps its account as it is.
    pub fn register_user(&mut self, caller: String, bio: String)
        requires
            old(self).wf(),
        ensures
            final(self).wf(),
            final(self).markets_view() == old(self).markets_view(),
            old(self).is_registered(caller@) ==> final(self).users_view() == old(self).users_view(),
            !old(self).is_registered(caller@) ==> {
                let us = final(self).users_view();
                &&& us.len() == old(self).users_view().len() + 1
                &&& us.drop_last() == old(self).users_view()
                &&& fresh_user(us.last(), caller@, bio@)
            },
    {
        let ghost old_users = self.users@;
        match self.find_user(&caller) {
            Some(_) => {
                return;
            },
            None => {},
        }
        let user = User::new(caller.clone(), bio);
        self.users.push(user);
        proof {
            let idx = old_users.len() as int;
            assert(self.users@.drop_last() =~= old_users);
            assert forall|k: int| 0 <= k < old_users.len() implies old_users[k].id@ != caller@ by {
                assert(old(self).users_view()[k] == old_users[k]);
            }
            assert forall|i: int, j: int|
                0 <= i < self.users_view().len() && 0 <= j < self.users_view().len() && i != j
                    implies self.users_view()[i].id@ != self.users_view()[j].id@ by {
                if i != idx && j != idx {
                    assert(old(self).users_view()[i].id@ != old(self).users_view()[j].id@);
                }
            }
            assert forall|m: int, k: int|
                0 <= m < self.markets@.len() && 0 <= k < self.markets@[m].voters@.len()
                    implies self.is_registered(#[trigger] self.markets@[m].voters@[k].0@) by {
                assert(old(self).markets_view()[m].voters@[k] == self.markets@[m].voters@[k]);
                assert(old(self).is_registered(self.markets@[m].voters@[k].0@));
                let w = choose|w: int| 0 <= w < old(self).users_view().len() && old(self).users_view()[w].id@ == self.markets@[m].voters@[k].0@;
                assert(self.users_view()[w].id@ == old_users[w].id@);
            }
        }
    }

    /// Opens a market created by `caller` and returns its id, the number of
    /// markets opened before it.
    pub fn add_market(&mut self, caller: String, question: String, liquidity: u64) -> (id: u64)
        requires
            old(self).wf(),
            old(self).markets_view().len() < u64::MAX,
            liquidity > 0,
        ensures
            final(self).wf(),
            id == old(self).markets_view().len(),
            final(self).users_view() == old(self).users_view(),
            final(self).markets_view().len() == old(self).markets_view().len() + 1,
            forall|k: int| 0 <= k < old(self).markets_view().len()
                ==> final(self).markets_view()[k] == old(self).markets_view()[k],
            ({
                let m = final(self).markets_view()[id as int];
                &&& m.id == id
                &&& m.creator@ == caller@
                &&& m.question@ == question@
                &&& m.liquidity == liquidity
                &&& m.num_yes == 0
                &&& m.num_no == 0
                &&& !m.resolved
                &&& m.outcome.is_none()
                &&& m.voters@.len() == 0
            }),
    {
        let id = self.markets.len() as u64;
        let market = Market::new(id, caller, question, liquidity);
        let ghost old_markets = self.markets@;
        self.markets.push(market);
        proof {
            assert forall|m: int, k: int|
                0 <= m < self.markets@.len() && 0 <= k < self.markets@[m].voters@.len()
                    implies self.is_registered(#[trigger] self.markets@[m].voters@[k].0@) by {
                if m < old_markets.len() {
                    assert(old_markets[m] == self.markets@[m]);
                    assert(old(self).is_registered(old_markets[m].voters@[k].0@));
                    let w = choose|w: int| 0 <= w < old(self).users_view().len() && old(self).users_view()[w].id@ == old_markets[m].voters@[k].0@;
                    assert(self.users_view()[w].id@ == old_markets[m].voters@[k].0@);
                }
            }
        }
        id
    }

    /// Credits `amount` to the account of `caller`; does nothing for an
    /// unregistered caller.
    pub fn deposit(&mut self, caller: String, amount: u128)
        requires
            old(self).wf(),
        ensures
            final(self).wf(),
            final(self).markets_view() == old(self).markets_view(),
            final(self).users_view().len() == old(self).users_view().len(),
            forall|k: int| 0 <= k < old(self).users_view().len() ==> {
                let u = old(self).users_view()[k];
                let nu = #[trigger] final(self).users_view()[k];
                &&& nu.id == u.id && nu.bio == u.bio && nu.history == u.history
                &&& nu.balance == if u.id@ == caller@ {
                    credited(u.balance, amount)
                } else {
                    u.balance
                }
            },
    {
        let ghost old_users = self.users@;
        match self.find_user(&caller) {
            Some(ui) => {
                self.users[ui].deposit(amount);
                proof {
                    assert forall|k: int| 0 <= k < old_users.len() && k != ui implies
                        old_users[k].id@ != caller@ by {
                        assert(old_users[k].id@ != old_users[ui as int].id@);
                    }
                    assert forall|m: int, k: int|
                        0 <= m < self.markets@.len() && 0 <= k < self.markets@[m].voters@.len()
                            implies self.is_registered(#[trigger] self.markets@[m].voters@[k].0@) by {
                        let w = choose|w: int| 0 <= w < old_users.len() && old_users[w].id@ == self.markets@[m].voters@[k].0@;
                        assert(self.users_view()[w].id@ == old_users[w].id@);
                    }
                }
            },
            None => {},
        }
    }

    /// Current share prices `(priceYes, priceNo)` of market `market_id` in
    /// micro-units, or `(0, 0)` when there is no such market.
    pub fn get_cost(&self, market_id: u64, trail_weight: u64) -> (r: (u64, u64))
        requires
            1 <= trail_weight <= UNIT,
        ensures
            market_id >= self.markets_view().len() ==> r == (0u64, 0u64),
            market_id < self.markets_view().len() ==> 0 < r.0 < UNIT && 0 < r.1 < UNIT,
            market_id < self.markets_view().len() ==> (r.0 as int, r.1 as int) == quote_spec(
                self.markets_view()[market_id as int].num_yes as int,
                self.markets_view()[market_id as int].num_no as int,
                trail_weight as int,
            ),
    {
        if market_id >= self.markets.len() as u64 {
            return (0, 0);
        }
        let m = &self.markets[market_id as usize];
        lmsr_quote(m.num_yes, m.num_no, trail_weight)
    }

    pub fn get_users(&self) -> (r: &Vec<User>)
        ensures
            r@ == self.users_view(),
    {
        &self.users
    }

    pub fn get_markets(&self) -> (r: &Vec<Market>)
        ensures
            r@ == self.markets_view(),
    {
        &self.markets
    }

    /// The account of `id`, if registered.
    pub fn get_user(&self, id: String) -> (r: Option<&User>)
        requires
            self.wf(),
        ensures
            r is None <==> !self.is_registered(id@),
            r matches Some(u) ==> *u == self.users_view()[self.user_index(id@)],
    {
        match self.find_user(&id) {
            Some(i) => Some(&self.users[i]),
            None => None,
        }
    }

    /// The market `id`, if it exists.
    pub fn get_market(&self, id: u64) -> (r: Option<&Market>)
        ensures
            r is None <==> id >= self.markets_view().len(),
            r matches Some(m) ==> *m == self.markets_view()[id as int],
    {
        if id < self.markets.len() as u64 {
            Some(&self.markets[id as usize])
        } else {
            None
        }
    }
}

} // verus!
