//! A single binary market: aggregate bet counts, the bet ledger and the
//! Open -> Resolved state machine.
use vstd::prelude::*;
use crate::elements::{Bet, KarmaError, Outcome, decided_outcome};

verus! {

/// A binary market. `voters` holds one entry per bettor, in the order the bets came in.
pub struct Market {
    pub creator: String,
    pub id: u64,
    pub question: String,
    pub num_yes: u64,
    pub num_no: u64,
    pub liquidity: u64,
    pub resolved: bool,
    pub outcome: Option<Outcome>,
    pub voters: Vec<(String, Bet)>,
}

/// Number of entries of `voters` on `side`.
pub open spec fn count_side(voters: Seq<(String, Bet)>, side: Outcome) -> nat
    decreases voters.len(),
{
    if voters.len() == 0 {
        0
    } else {
        count_side(voters.drop_last(), side) + if voters.last().1.side == side {
            1nat
        } else {
            0nat
        }
    }
}

/// No bettor appears twice in `voters`.
pub open spec fn distinct_voters(voters: Seq<(String, Bet)>) -> bool {
    forall|i: int, j: int|
        0 <= i < voters.len() && 0 <= j < voters.len() && i != j ==> voters[i].0@ != voters[j].0@
}

/// `user` has an entry in `voters`.
pub open spec fn voted(voters: Seq<(String, Bet)>, user: Seq<char>) -> bool {
    exists|i: int| 0 <= i < voters.len() && voters[i].0@ == user
}

pub proof fn lemma_counts_add_up(voters: Seq<(String, Bet)>)
    ensures
        count_side(voters, Outcome::YES) + count_side(voters, Outcome::NO) == voters.len(),
    decreases voters.len(),
{
    if voters.len() > 0 {
        lemma_counts_add_up(voters.drop_last());
    }
}

impl Market {
    /// The market's invariant: the counters count the ledger's entries by side,
    /// each bettor appears once, and an outcome is present exactly when the
    /// market is resolved, decided by the counters.
    pub open spec fn wf(&self) -> bool {
        &&& self.num_yes == count_side(self.voters@, Outcome::YES)
        &&& self.num_no == count_side(self.voters@, Outcome::NO)
        &&& distinct_voters(self.voters@)
        &&& self.resolved == self.outcome.is_some()
        &&& self.resolved ==> self.outcome == Some(
            decided_outcome(self.num_yes as int, self.num_no as int),
        )
    }

    pub open spec fn has_voted(&self, user: Seq<char>) -> bool {
        voted(self.voters@, user)
    }

    /// An open market with no bets, created by `creator`.
    pub fn new(id: u64, creator: String, question: String, liquidity: u64) -> (r: Self)
        ensures
            r.wf(),
            r.id == id,
            r.creator@ == creator@,
            r.question@ == question@,
            r.liquidity == liquidity,
            r.num_yes == 0,
            r.num_no == 0,
            !r.resolved,
            r.outcome.is_none(),
            r.voters@.len() == 0,
    {
        Market {
            creator,
            id,
            question,
            num_yes: 0,
            num_no: 0,
            liquidity,
            resolved: false,
            outcome: None,
            voters: Vec::new(),
        }
    }

    /// Records `bet` for `better` in an open market where `better` has not bet yet.
    pub fn add_bet(&mut self, better: String, bet: Bet)
        requires
            old(self).wf(),
            !old(self).resolved,
            !old(self).has_voted(better@),
            old(self).num_yes + old(self).num_no < u64::MAX,
        ensures
            final(self).wf(),
            final(self).voters@ == old(self).voters@.push((better, bet)),
            final(self).num_yes == old(self).num_yes + if bet.side == Outcome::YES {
                1int
            } else {
                0int
            },
            final(self).num_no == old(self).num_no + if bet.side == Outcome::NO {
                1int
            } else {
                0int
            },
            final(self).creator == old(self).creator,
            final(self).id == old(self).id,
            final(self).question == old(self).question,
            final(self).liquidity == old(self).liquidity,
            final(self).resolved == old(self).resolved,
            final(self).outcome == old(self).outcome,
    {
        match bet.side {
            Outcome::YES => {
                self.num_yes = self.num_yes + 1;
            },
            Outcome::NO => {
                self.num_no = self.num_no + 1;
            },
        }
        self.voters.push((better, bet));
        proof {
            let v = self.voters@;
            assert(v.drop_last() =~= old(self).voters@);
            assert forall|i: int, j: int|
                0 <= i < v.len() && 0 <= j < v.len() && i != j implies v[i].0@ != v[j].0@ by {
                if i == v.len() - 1 {
                    assert(old(self).voters@[j] == v[j]);
                } else if j == v.len() - 1 {
                    assert(old(self).voters@[i] == v[i]);
                } else {
                    assert(old(self).voters@[i] == v[i]);
                    assert(old(self).voters@[j] == v[j]);
                }
            }
        }
    }

    /// Moves the market to its terminal state: only its creator may, and only once.
    pub fn resolve(&mut self, caller: &String) -> (r: Result<(), KarmaError>)
        requires
            old(self).wf(),
        ensures
            final(self).wf(),
            old(self).resolved ==> r == Err::<(), KarmaError>(KarmaError::MarketAlreadyResolved),
            !old(self).resolved && caller@ != old(self).creator@ ==> r == Err::<(), KarmaError>(
                KarmaError::NotCreator,
            ),
            !old(self).resolved && caller@ == old(self).creator@ ==> r is Ok,
            r is Err ==> *final(self) == *old(self),
            r is Ok ==> final(self).resolved && final(self).outcome == Some(
                decided_outcome(old(self).num_yes as int, old(self).num_no as int),
            ),
            final(self).voters == old(self).voters,
            final(self).num_yes == old(self).num_yes,
            final(self).num_no == old(self).num_no,
            final(self).creator == old(self).creator,
            final(self).id == old(self).id,
            final(self).question == old(self).question,
            final(self).liquidity == old(self).liquidity,
    {
        if self.resolved {
            return Err(KarmaError::MarketAlreadyResolved);
        }
        if *caller != self.creator {
            return Err(KarmaError::NotCreator);
        }
        self.resolved = true;
        if self.num_no > self.num_yes {
            self.outcome = Some(Outcome::NO);
        } else {
            self.outcome = Some(Outcome::YES);
        }
        Ok(())
    }

    pub fn is_resolved(&self) -> (r: bool)
        ensures
            r == self.resolved,
    {
        self.resolved
    }

    /// Whether `user_id` already has a bet in this market.
    pub fn has_already_voted(&self, user_id: String) -> (r: bool)
        ensures
            r == self.has_voted(user_id@),
    {
        let mut i: usize = 0;
        while i < self.voters.len()
            invariant
                0 <= i <= self.voters@.len(),
                forall|k: int| 0 <= k < i ==> self.voters@[k].0@ != user_id@,
            decreases self.voters@.len() - i,
        {
            if self.voters[i].0 == user_id {
                return true;
            }
            i = i + 1;
        }
        false
    }
}

} // verus!
