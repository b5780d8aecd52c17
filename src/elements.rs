//! Outcomes, bets and the fixed-point form of the logarithmic market scoring rule.
use vstd::prelude::*;

verus! {

/// Number of micro-units in one currency unit; prices and balances are counted in micro-units.
pub const UNIT: u64 = 1_000_000;

/// One side of a binary market.
#[derive(Clone, Copy, Debug, PartialEq, Eq, Structural)]
pub enum Outcome {
    YES,
    NO,
}

/// One user's position in one market.
#[derive(Clone, Copy, Debug, PartialEq, Eq, Structural)]
pub struct Bet {
    pub side: Outcome,
    pub quantity: u64,
}

/// Why an operation on the market engine was rejected.
#[derive(Clone, Copy, Debug, PartialEq, Eq, Structural)]
pub enum KarmaError {
    NoSuchMarket,
    MarketAlreadyResolved,
    UserNotRegistered,
    AlreadyVoted,
    InsufficientBalance,
    NotCreator,
}

/// The outcome a market resolves to: NO when it has strictly more bets, else YES.
pub open spec fn decided_outcome(num_yes: int, num_no: int) -> Outcome {
    if num_no > num_yes {
        Outcome::NO
    } else {
        Outcome::YES
    }
}

/// Price of the leading side (the side with at least as many bets), in micro-units,
/// given the weight `w` of the trailing side relative to the leading one, also in
/// micro-units (`w == UNIT * exp(-|numYes - numNo| / b)`, rounded).
pub open spec fn lead_price(w: int) -> int {
    (UNIT * UNIT) / (UNIT + w)
}

/// The pair `(priceYes, priceNo)` in micro-units. YES leads on a tie.
pub open spec fn quote_spec(num_yes: int, num_no: int, w: int) -> (int, int) {
    if num_yes >= num_no {
        (lead_price(w), UNIT - lead_price(w))
    } else {
        (UNIT - lead_price(w), lead_price(w))
    }
}

/// The price of one share on `side`.
pub open spec fn side_price(num_yes: int, num_no: int, w: int, side: Outcome) -> int {
    match side {
        Outcome::YES => quote_spec(num_yes, num_no, w).0,
        Outcome::NO => quote_spec(num_yes, num_no, w).1,
    }
}

proof fn lemma_lead_price_bounds(w: int)
    requires
        0 <= w <= UNIT,
    ensures
        UNIT / 2 <= lead_price(w) <= UNIT,
        w >= 1 ==> lead_price(w) < UNIT,
{
    let d = UNIT + w;
    let n = UNIT * UNIT;
    let q = n / d;
    assert(n == q * d + n % d && 0 <= n % d < d) by (nonlinear_arith)
        requires d > 0, q == n / d;
    assert(UNIT / 2 <= q) by (nonlinear_arith)
        requires n == q * d + n % d, 0 <= n % d < d, d <= 2 * UNIT, n == 1_000_000_000_000int,
            UNIT == 1_000_000int;
    assert(q <= UNIT) by (nonlinear_arith)
        requires n == q * d + n % d, 0 <= n % d < d, d >= UNIT, n == 1_000_000_000_000int,
            UNIT == 1_000_000int;
    if w >= 1 {
        assert(q < UNIT) by (nonlinear_arith)
            requires n == q * d + n % d, 0 <= n % d, d >= UNIT + 1, n == 1_000_000_000_000int,
                UNIT == 1_000_000int;
    }
}

/// The further the trailing side falls behind (the smaller its weight), the
/// dearer the leading side and the cheaper the trailing side.
pub proof fn lemma_quote_widens_with_gap(w_near: u64, w_far: u64)
    requires
        w_far <= w_near <= UNIT,
    ensures
        lead_price(w_near as int) <= lead_price(w_far as int),
        UNIT - lead_price(w_far as int) <= UNIT - lead_price(w_near as int),
{
    vstd::arithmetic::div_mod::lemma_div_is_ordered_by_denominator(
        UNIT * UNIT,
        UNIT + w_far,
        UNIT + w_near,
    );
}

/// Share prices for a market with `num_yes` and `num_no` recorded bets, in micro-units.
///
/// `trail_weight` is the numerically stable softmax weight of the trailing side:
/// the leading side's weight is fixed at `UNIT` and the trailing side's is
/// `UNIT * exp(-|num_yes - num_no| / b)`, so no exponent ever exceeds zero.
/// It is at least one micro-unit, so that neither side is ever free.
pub fn lmsr_quote(num_yes: u64, num_no: u64, trail_weight: u64) -> (r: (u64, u64))
    requires
        1 <= trail_weight <= UNIT,
    ensures
        (r.0 as int, r.1 as int) == quote_spec(num_yes as int, num_no as int, trail_weight as int),
        r.0 + r.1 == UNIT,
        0 < r.0 < UNIT,
        0 < r.1 < UNIT,
{
    proof {
        lemma_lead_price_bounds(trail_weight as int);
    }
    let lead: u64 = (UNIT * UNIT) / (UNIT + trail_weight);
    if num_yes >= num_no {
        (lead, UNIT - lead)
    } else {
        (UNIT - lead, lead)
    }
}

/// The two prices always add up to one currency unit, and each lies strictly
/// between nothing and one unit as long as the trailing weight has not
/// underflowed to zero.
pub proof fn lemma_quote_is_probability(num_yes: u64, num_no: u64, trail_weight: u64)
    requires
        1 <= trail_weight <= UNIT,
    ensures
        quote_spec(num_yes as int, num_no as int, trail_weight as int).0
            + quote_spec(num_yes as int, num_no as int, trail_weight as int).1 == UNIT,
        0 < quote_spec(num_yes as int, num_no as int, trail_weight as int).0 < UNIT,
        0 < quote_spec(num_yes as int, num_no as int, trail_weight as int).1 < UNIT,
{
    lemma_lead_price_bounds(trail_weight as int);
}

} // verus!
