use karma::elements::{lmsr_quote, Bet, KarmaError, Outcome, UNIT};
use karma::market::Market;
use karma::user::{User, STARTING_BALANCE};
use karma::KarmaContractState;

fn s(x: &str) -> String {
    x.to_string()
}

/// Trailing-side weight `UNIT * exp(-|yes - no| / b)`, rounded.
fn weight(num_yes: u64, num_no: u64, b: f64) -> u64 {
    let d = (num_yes as f64 - num_no as f64).abs();
    (((-d / b).exp() * UNIT as f64).round() as u64).clamp(1, UNIT)
}

fn weight_for(engine: &KarmaContractState, market_id: u64) -> u64 {
    let m = engine.get_market(market_id).unwrap();
    weight(m.num_yes, m.num_no, m.liquidity as f64 / UNIT as f64)
}

fn balance_of(engine: &KarmaContractState, id: &str) -> u128 {
    engine.get_user(s(id)).unwrap().balance()
}

#[test]
fn fresh_market_quotes_even_prices() {
    let mut e = KarmaContractState::new();
    let id = e.add_market(s("alice"), s("Will it rain?"), 10 * UNIT);
    assert_eq!(id, 0);
    let w = weight_for(&e, id);
    assert_eq!(w, UNIT);
    assert_eq!(e.get_cost(id, w), (500_000, 500_000));
}

#[test]
fn one_yes_bet_moves_the_price() {
    let mut e = KarmaContractState::new();
    let id = e.add_market(s("alice"), s("q"), 10 * UNIT);
    e.register_user(s("bob"), s("bio"));
    let w = weight_for(&e, id);
    assert_eq!(e.bet(s("bob"), id, Outcome::YES, 1, w), Ok(()));
    let m = e.get_market(id).unwrap();
    assert_eq!((m.num_yes, m.num_no), (1, 0));
    let w = weight_for(&e, id);
    assert_eq!(w, 904_837);
    let (yes, no) = e.get_cost(id, w);
    assert_eq!((yes, no), (524_979, 475_021));
    assert!((yes as f64 / UNIT as f64 - 0.5249).abs() < 1e-4);
    assert!((no as f64 / UNIT as f64 - 0.4751).abs() < 1e-4);
}

#[test]
fn bet_withdraws_quoted_cost() {
    let mut e = KarmaContractState::new();
    let id = e.add_market(s("alice"), s("q"), 10 * UNIT);
    e.register_user(s("bob"), s("bio"));
    assert_eq!(balance_of(&e, "bob"), 100 * UNIT as u128);
    let w = weight_for(&e, id);
    assert_eq!(e.bet(s("bob"), id, Outcome::YES, 50, w), Ok(()));
    assert_eq!(balance_of(&e, "bob"), 75 * UNIT as u128);
    assert_eq!(e.get_user(s("bob")).unwrap().history, vec![id]);
}

#[test]
fn resolution_pays_winning_side_only() {
    let mut e = KarmaContractState::new();
    let id = e.add_market(s("alice"), s("q"), 10 * UNIT);
    for u in ["yes_user", "no_user", "no_user2"] {
        e.register_user(s(u), s("bio"));
    }
    let w = weight_for(&e, id);
    assert_eq!(e.bet(s("yes_user"), id, Outcome::YES, 10, w), Ok(()));
    let w = weight_for(&e, id);
    assert_eq!(e.bet(s("no_user"), id, Outcome::NO, 20, w), Ok(()));
    let w = weight_for(&e, id);
    assert_eq!(e.bet(s("no_user2"), id, Outcome::NO, 5, w), Ok(()));
    let m = e.get_market(id).unwrap();
    assert!(m.num_no > m.num_yes);
    let yes_before = balance_of(&e, "yes_user");
    let no_before = balance_of(&e, "no_user");
    let no2_before = balance_of(&e, "no_user2");
    assert_eq!(e.resolve(s("alice"), id), Ok(()));
    let m = e.get_market(id).unwrap();
    assert!(m.is_resolved());
    assert_eq!(m.outcome, Some(Outcome::NO));
    assert_eq!(balance_of(&e, "yes_user"), yes_before);
    assert_eq!(balance_of(&e, "no_user"), no_before + 20 * UNIT as u128);
    assert_eq!(balance_of(&e, "no_user2"), no2_before + 5 * UNIT as u128);
}

#[test]
fn tie_resolves_to_yes() {
    let mut e = KarmaContractState::new();
    let id = e.add_market(s("alice"), s("q"), 10 * UNIT);
    e.register_user(s("a"), s(""));
    e.register_user(s("b"), s(""));
    let w = weight_for(&e, id);
    assert_eq!(e.bet(s("a"), id, Outcome::YES, 3, w), Ok(()));
    let w = weight_for(&e, id);
    assert_eq!(e.bet(s("b"), id, Outcome::NO, 4, w), Ok(()));
    let a_before = balance_of(&e, "a");
    let b_before = balance_of(&e, "b");
    assert_eq!(e.resolve(s("alice"), id), Ok(()));
    assert_eq!(e.get_market(id).unwrap().outcome, Some(Outcome::YES));
    assert_eq!(balance_of(&e, "a"), a_before + 3 * UNIT as u128);
    assert_eq!(balance_of(&e, "b"), b_before);
}

#[test]
fn unknown_market_costs_nothing() {
    let e = KarmaContractState::new();
    assert_eq!(e.get_cost(7, UNIT), (0, 0));
    assert!(e.get_market(7).is_none());
}

#[test]
fn bet_on_unknown_market_fails() {
    let mut e = KarmaContractState::new();
    e.register_user(s("bob"), s(""));
    assert_eq!(e.bet(s("bob"), 3, Outcome::YES, 1, UNIT), Err(KarmaError::NoSuchMarket));
}

#[test]
fn bet_by_unregistered_user_fails() {
    let mut e = KarmaContractState::new();
    let id = e.add_market(s("alice"), s("q"), UNIT);
    assert_eq!(e.bet(s("ghost"), id, Outcome::NO, 1, UNIT), Err(KarmaError::UserNotRegistered));
    assert_eq!(e.get_market(id).unwrap().voters.len(), 0);
}

#[test]
fn second_bet_fails_with_already_voted() {
    let mut e = KarmaContractState::new();
    let id = e.add_market(s("alice"), s("q"), UNIT);
    e.register_user(s("bob"), s(""));
    assert_eq!(e.bet(s("bob"), id, Outcome::YES, 1, UNIT), Ok(()));
    let before = balance_of(&e, "bob");
    let w = weight_for(&e, id);
    assert_eq!(e.bet(s("bob"), id, Outcome::NO, 1, w), Err(KarmaError::AlreadyVoted));
    assert_eq!(balance_of(&e, "bob"), before);
    let m = e.get_market(id).unwrap();
    assert_eq!((m.num_yes, m.num_no, m.voters.len()), (1, 0, 1));
}

#[test]
fn bet_beyond_balance_fails() {
    let mut e = KarmaContractState::new();
    let id = e.add_market(s("alice"), s("q"), 10 * UNIT);
    e.register_user(s("bob"), s(""));
    // 201 shares at half a unit cost 100.5 units, more than the 100 held.
    assert_eq!(e.bet(s("bob"), id, Outcome::YES, 201, UNIT), Err(KarmaError::InsufficientBalance));
    assert_eq!(balance_of(&e, "bob"), STARTING_BALANCE);
    // 200 shares cost exactly the whole balance.
    assert_eq!(e.bet(s("bob"), id, Outcome::YES, 200, UNIT), Ok(()));
    assert_eq!(balance_of(&e, "bob"), 0);
}

#[test]
fn only_creator_resolves() {
    let mut e = KarmaContractState::new();
    let id = e.add_market(s("alice"), s("q"), UNIT);
    assert_eq!(e.resolve(s("mallory"), id), Err(KarmaError::NotCreator));
    assert!(!e.get_market(id).unwrap().is_resolved());
    assert_eq!(e.resolve(s("alice"), 5), Err(KarmaError::NoSuchMarket));
}

#[test]
fn resolution_happens_once() {
    let mut e = KarmaContractState::new();
    let id = e.add_market(s("alice"), s("q"), UNIT);
    e.register_user(s("bob"), s(""));
    assert_eq!(e.bet(s("bob"), id, Outcome::YES, 10, UNIT), Ok(()));
    assert_eq!(e.resolve(s("alice"), id), Ok(()));
    let after = balance_of(&e, "bob");
    assert_eq!(e.resolve(s("alice"), id), Err(KarmaError::MarketAlreadyResolved));
    assert_eq!(balance_of(&e, "bob"), after);
    e.register_user(s("carol"), s(""));
    assert_eq!(e.bet(s("carol"), id, Outcome::NO, 1, UNIT), Err(KarmaError::MarketAlreadyResolved));
}

#[test]
fn counters_match_bettors() {
    let mut e = KarmaContractState::new();
    let id = e.add_market(s("alice"), s("q"), 5 * UNIT);
    let names = ["u1", "u2", "u3", "u4", "u5"];
    for (i, n) in names.iter().enumerate() {
        e.register_user(s(n), s(""));
        let side = if i % 2 == 0 { Outcome::YES } else { Outcome::NO };
        let w = weight_for(&e, id);
        assert_eq!(e.bet(s(n), id, side, 1 + i as u64, w), Ok(()));
    }
    let m = e.get_market(id).unwrap();
    assert_eq!((m.num_yes, m.num_no), (3, 2));
    assert_eq!(m.num_yes + m.num_no, m.voters.len() as u64);
}

#[test]
fn new_market_is_open_and_empty() {
    let m = Market::new(4, s("alice"), s("q"), UNIT);
    assert_eq!((m.id, m.num_yes, m.num_no), (4, 0, 0));
    assert!(!m.is_resolved());
    assert!(m.outcome.is_none());
    assert!(!m.has_already_voted(s("alice")));
}

#[test]
fn market_records_and_resolves() {
    let mut m = Market::new(0, s("alice"), s("q"), UNIT);
    m.add_bet(s("bob"), Bet { side: Outcome::NO, quantity: 2 });
    assert!(m.has_already_voted(s("bob")));
    assert!(!m.has_already_voted(s("carol")));
    assert_eq!(m.num_no, 1);
    assert_eq!(m.resolve(&s("bob")), Err(KarmaError::NotCreator));
    assert_eq!(m.resolve(&s("alice")), Ok(()));
    assert_eq!(m.outcome, Some(Outcome::NO));
    assert_eq!(m.resolve(&s("alice")), Err(KarmaError::MarketAlreadyResolved));
}

#[test]
fn quote_is_a_probability_pair() {
    for (y, n, w) in [(0u64, 0u64, UNIT), (3, 1, 818_731), (1, 3, 818_731), (100, 0, 1), (0, 100, 45_400)] {
        let (py, pn) = lmsr_quote(y, n, w);
        assert_eq!(py + pn, UNIT);
        assert!(py > 0 && py < UNIT && pn > 0 && pn < UNIT);
        if y > n {
            assert!(py > pn);
        }
        if n > y {
            assert!(pn > py);
        }
    }
    assert_eq!(lmsr_quote(0, 100, 45_400), (43_429, 956_571));
}

#[test]
fn user_ledger_operations() {
    let mut u = User::new(s("bob"), s("hi"));
    assert_eq!(u.balance(), STARTING_BALANCE);
    u.deposit(5);
    assert_eq!(u.balance(), STARTING_BALANCE + 5);
    u.withdraw(STARTING_BALANCE);
    assert_eq!(u.balance(), 5);
    u.deposit(u128::MAX);
    assert_eq!(u.balance(), u128::MAX);
    u.add_market(3);
    u.add_market(1);
    assert_eq!(u.history, vec![3, 1]);
}

#[test]
fn engine_deposit_and_reregistration() {
    let mut e = KarmaContractState::new();
    e.deposit(s("nobody"), 10);
    assert!(e.get_users().is_empty());
    e.register_user(s("bob"), s("first"));
    e.deposit(s("bob"), 7);
    assert_eq!(balance_of(&e, "bob"), STARTING_BALANCE + 7);
    e.register_user(s("bob"), s("second"));
    assert_eq!(e.get_users().len(), 1);
    assert_eq!(balance_of(&e, "bob"), STARTING_BALANCE + 7);
    assert_eq!(e.get_user(s("bob")).unwrap().bio, "first");
    assert!(e.get_user(s("carol")).is_none());
    let a = e.add_market(s("bob"), s("a"), UNIT);
    let b = e.add_market(s("bob"), s("b"), UNIT);
    assert_eq!((a, b), (0, 1));
    assert_eq!(e.get_markets().len(), 2);
    assert_eq!(e.get_markets()[1].question, "b");
}

#[test]
fn large_gap_keeps_both_prices_positive() {
    let mut e = KarmaContractState::new();
    let id = e.add_market(s("alice"), s("q"), UNIT);
    let names: Vec<String> = (0..20).map(|i| format!("u{}", i)).collect();
    for n in &names {
        e.register_user(n.clone(), s(""));
        let w = weight_for(&e, id);
        assert_eq!(e.bet(n.clone(), id, Outcome::YES, 1, w), Ok(()));
    }
    let m = e.get_market(id).unwrap();
    assert_eq!((m.num_yes, m.num_no), (20, 0));
    // exp(-20) * UNIT rounds to zero; the weight is held at one micro-unit.
    let w = weight_for(&e, id);
    assert_eq!(w, 1);
    let (yes, no) = e.get_cost(id, w);
    assert_eq!((yes, no), (999_999, 1));
    assert!(yes > 0 && yes < UNIT && no > 0 && no < UNIT);
    // A bet on the trailing side is never free.
    e.register_user(s("late"), s(""));
    assert_eq!(e.bet(s("late"), id, Outcome::NO, 1_000, w), Ok(()));
    assert_eq!(balance_of(&e, "late"), STARTING_BALANCE - 1_000);
    assert_eq!(lmsr_quote(0, 1_000_000, 1), (1, 999_999));
}
