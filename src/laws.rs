//! Properties that relate several operations of the market engine.
use vstd::prelude::*;
use crate::elements::{Bet, KarmaError, Outcome, decided_outcome};
use crate::market::{distinct_voters, lemma_counts_add_up};
use crate::user::User;
use crate::{KarmaContractState, payout, wins};

verus! {

/// In every reachable engine state, each market's two counters add up to the
/// number of bettors in its ledger, and no bettor appears twice in it.
pub proof fn lemma_counts_match_bettors(s: KarmaContractState, market_id: u64)
    requires
        s.wf(),
        market_id < s.markets_view().len(),
    ensures
        s.markets_view()[market_id as int].num_yes + s.markets_view()[market_id as int].num_no
            == s.markets_view()[market_id as int].voters@.len(),
        distinct_voters(s.markets_view()[market_id as int].voters@),
{
    let m = s.markets_view()[market_id as int];
    assert(m.wf());
    lemma_counts_add_up(m.voters@);
}

/// Once a user's bet on a market has been accepted, any further bet by the
/// same user on that market is refused with `AlreadyVoted`.
pub proof fn lemma_second_bet_refused(
    s0: KarmaContractState,
    s1: KarmaContractState,
    caller: String,
    market_id: u64,
    side: Outcome,
    quantity: u64,
    trail_weight: u64,
    side2: Outcome,
    quantity2: u64,
    trail_weight2: u64,
)
    requires
        KarmaContractState::bet_applied(s0, s1, caller, market_id, side, quantity, trail_weight),
    ensures
        s1.bet_outcome(caller@, market_id, side2, quantity2, trail_weight2) == Err::<(), KarmaError>(
            KarmaError::AlreadyVoted,
        ),
{
    let ui = s0.user_index(caller@);
    assert(s1.users_view()[ui].id@ == caller@);
    let nm = s1.markets_view()[market_id as int];
    let last = nm.voters@.len() - 1;
    assert(nm.voters@[last].0@ == caller@);
}

/// A resolved market is terminal: resolving it again, by anyone, is refused
/// with `MarketAlreadyResolved`, and so is every further bet on it.
pub proof fn lemma_resolution_is_final(
    s0: KarmaContractState,
    s1: KarmaContractState,
    market_id: u64,
    caller: Seq<char>,
    side: Outcome,
    quantity: u64,
    trail_weight: u64,
)
    requires
        KarmaContractState::resolve_applied(s0, s1, market_id),
    ensures
        s1.resolve_outcome(caller, market_id) == Err::<(), KarmaError>(KarmaError::MarketAlreadyResolved),
        s1.bet_outcome(caller, market_id, side, quantity, trail_weight) == Err::<(), KarmaError>(
            KarmaError::MarketAlreadyResolved,
        ),
{
}

/// Resolution leaves the balance of a bettor on the losing side unchanged.
pub proof fn lemma_losers_unchanged(s0: KarmaContractState, s1: KarmaContractState, market_id: u64, k: int, t: int)
    requires
        s0.wf(),
        KarmaContractState::resolve_applied(s0, s1, market_id),
        0 <= k < s0.users_view().len(),
        0 <= t < s0.markets_view()[market_id as int].voters@.len(),
        s0.markets_view()[market_id as int].voters@[t].0@ == s0.users_view()[k].id@,
        s0.markets_view()[market_id as int].voters@[t].1.side != decided_outcome(
            s0.markets_view()[market_id as int].num_yes as int,
            s0.markets_view()[market_id as int].num_no as int,
        ),
    ensures
        s1.users_view()[k].balance == s0.users_view()[k].balance,
{
    let m = s0.markets_view()[market_id as int];
    let outcome = decided_outcome(m.num_yes as int, m.num_no as int);
    assert(m.wf());
    assert forall|j: int| 0 <= j < m.voters@.len() implies !wins(
        #[trigger] m.voters@[j],
        s0.users_view()[k].id@,
        outcome,
    ) by {
        if j != t {
            assert(m.voters@[j].0@ != m.voters@[t].0@);
        }
    }
}


/// `f(0) + f(1) + ... + f(n - 1)`.
pub open spec fn sum_upto(n: int, f: spec_fn(int) -> int) -> int
    decreases n,
{
    if n <= 0 {
        0
    } else {
        sum_upto(n - 1, f) + f(n - 1)
    }
}

/// What the ledger `voters` pays out in total to the side `outcome`.
pub open spec fn winning_total(voters: Seq<(String, Bet)>, outcome: Outcome) -> int
    decreases voters.len(),
{
    if voters.len() == 0 {
        0
    } else {
        winning_total(voters.drop_last(), outcome) + if voters.last().1.side == outcome {
            payout(voters.last().1.quantity) as int
        } else {
            0int
        }
    }
}

/// What the ledger `voters` pays out to the user `id` when `outcome` wins.
pub open spec fn winnings_of(voters: Seq<(String, Bet)>, id: Seq<char>, outcome: Outcome) -> int
    decreases voters.len(),
{
    if voters.len() == 0 {
        0
    } else {
        winnings_of(voters.drop_last(), id, outcome) + if wins(voters.last(), id, outcome) {
            payout(voters.last().1.quantity) as int
        } else {
            0int
        }
    }
}

/// What the accounts `us` gained in total on becoming `nus`.
pub open spec fn credited_total(us: Seq<User>, nus: Seq<User>) -> int {
    sum_upto(us.len() as int, |k: int| nus[k].balance - us[k].balance)
}

proof fn lemma_sum_ext(n: int, f: spec_fn(int) -> int, g: spec_fn(int) -> int)
    requires
        forall|k: int| 0 <= k < n ==> #[trigger] f(k) == g(k),
    ensures
        sum_upto(n, f) == sum_upto(n, g),
    decreases n,
{
    if n > 0 {
        lemma_sum_ext(n - 1, f, g);
    }
}

proof fn lemma_sum_add(n: int, f: spec_fn(int) -> int, g: spec_fn(int) -> int, h: spec_fn(int) -> int)
    requires
        forall|k: int| 0 <= k < n ==> #[trigger] h(k) == f(k) + g(k),
    ensures
        sum_upto(n, h) == sum_upto(n, f) + sum_upto(n, g),
    decreases n,
{
    if n > 0 {
        lemma_sum_add(n - 1, f, g, h);
    }
}

proof fn lemma_sum_single(n: int, f: spec_fn(int) -> int, j: int)
    requires
        forall|k: int| 0 <= k < n && k != j ==> #[trigger] f(k) == 0,
    ensures
        sum_upto(n, f) == if 0 <= j < n { f(j) } else { 0 },
    decreases n,
{
    if n > 0 {
        lemma_sum_single(n - 1, f, j);
    }
}

proof fn lemma_winnings_none(voters: Seq<(String, Bet)>, id: Seq<char>, outcome: Outcome)
    requires
        forall|t: int| 0 <= t < voters.len() ==> !wins(#[trigger] voters[t], id, outcome),
    ensures
        winnings_of(voters, id, outcome) == 0,
    decreases voters.len(),
{
    if voters.len() > 0 {
        let v = voters.drop_last();
        assert forall|t: int| 0 <= t < v.len() implies !wins(#[trigger] v[t], id, outcome) by {
            assert(v[t] == voters[t]);
        }
        lemma_winnings_none(v, id, outcome);
    }
}

proof fn lemma_winnings_one(voters: Seq<(String, Bet)>, id: Seq<char>, outcome: Outcome, t: int)
    requires
        distinct_voters(voters),
        0 <= t < voters.len(),
        wins(voters[t], id, outcome),
    ensures
        winnings_of(voters, id, outcome) == payout(voters[t].1.quantity),
    decreases voters.len(),
{
    let v = voters.drop_last();
    let last = voters.len() - 1;
    if t == last {
        assert forall|s: int| 0 <= s < v.len() implies !wins(#[trigger] v[s], id, outcome) by {
            assert(v[s] == voters[s]);
            assert(voters[s].0@ != voters[t].0@);
        }
        lemma_winnings_none(v, id, outcome);
    } else {
        assert(voters[last].0@ != voters[t].0@);
        assert(v[t] == voters[t]);
        assert(distinct_voters(v)) by {
            assert forall|i: int, j: int|
                0 <= i < v.len() && 0 <= j < v.len() && i != j implies v[i].0@ != v[j].0@ by {
                assert(v[i] == voters[i] && v[j] == voters[j]);
            }
        }
        lemma_winnings_one(v, id, outcome, t);
    }
}

/// Summed over all accounts, the winnings in the first `p` ledger entries
/// equal what those entries pay to the winning side.
proof fn lemma_winnings_sum_prefix(s: KarmaContractState, market_id: u64, outcome: Outcome, p: int)
    requires
        s.wf(),
        market_id < s.markets_view().len(),
        0 <= p <= s.markets_view()[market_id as int].voters@.len(),
    ensures
        ({
            let voters = s.markets_view()[market_id as int].voters@;
            let us = s.users_view();
            sum_upto(us.len() as int, |k: int| winnings_of(voters.take(p), us[k].id@, outcome))
                == winning_total(voters.take(p), outcome)
        }),
    decreases p,
{
    let voters = s.markets_view()[market_id as int].voters@;
    let us = s.users_view();
    let n = us.len() as int;
    if p == 0 {
        lemma_sum_single(n, |k: int| winnings_of(voters.take(p), us[k].id@, outcome), -1);
    } else {
        lemma_winnings_sum_prefix(s, market_id, outcome, p - 1);
        let e = voters[p - 1];
        assert(voters.take(p).drop_last() =~= voters.take(p - 1));
        let f = |k: int| winnings_of(voters.take(p - 1), us[k].id@, outcome);
        let g = |k: int| if wins(e, us[k].id@, outcome) { payout(e.1.quantity) as int } else { 0int };
        let h = |k: int| winnings_of(voters.take(p), us[k].id@, outcome);
        lemma_sum_add(n, f, g, h);
        let j = s.user_index(e.0@);
        assert(s.is_registered(voters[p - 1].0@));
        assert forall|k: int| 0 <= k < n && k != j implies #[trigger] g(k) == 0 by {
            assert(us[k].id@ != us[j].id@);
        }
        lemma_sum_single(n, g, j);
    }
}

/// Resolution credits, summed over all accounts, exactly the payout of the
/// bets on the winning side, provided no credited balance reaches the largest
/// representable balance.
pub proof fn lemma_payouts_match_winning_bets(s0: KarmaContractState, s1: KarmaContractState, market_id: u64)
    requires
        s0.wf(),
        KarmaContractState::resolve_applied(s0, s1, market_id),
        forall|k: int, t: int|
            0 <= k < s0.users_view().len() && 0 <= t < s0.markets_view()[market_id as int].voters@.len()
                ==> s0.users_view()[k].balance + payout(
                s0.markets_view()[market_id as int].voters@[t].1.quantity,
            ) <= u128::MAX,
    ensures
        credited_total(s0.users_view(), s1.users_view()) == winning_total(
            s0.markets_view()[market_id as int].voters@,
            decided_outcome(
                s0.markets_view()[market_id as int].num_yes as int,
                s0.markets_view()[market_id as int].num_no as int,
            ),
        ),
{
    let m = s0.markets_view()[market_id as int];
    let voters = m.voters@;
    let outcome = decided_outcome(m.num_yes as int, m.num_no as int);
    let us = s0.users_view();
    let nus = s1.users_view();
    assert(m.wf());
    lemma_winnings_sum_prefix(s0, market_id, outcome, voters.len() as int);
    assert(voters.take(voters.len() as int) =~= voters);
    let f = |k: int| nus[k].balance - us[k].balance;
    let g = |k: int| winnings_of(voters, us[k].id@, outcome);
    assert forall|k: int| 0 <= k < us.len() implies #[trigger] f(k) == g(k) by {
        if exists|t: int| 0 <= t < voters.len() && wins(voters[t], us[k].id@, outcome) {
            let t = choose|t: int| 0 <= t < voters.len() && wins(voters[t], us[k].id@, outcome);
            lemma_winnings_one(voters, us[k].id@, outcome, t);
        } else {
            lemma_winnings_none(voters, us[k].id@, outcome);
        }
    }
    lemma_sum_ext(us.len() as int, f, g);
}

} // verus!
