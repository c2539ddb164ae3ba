//! What a bet pays: the amount a bookmaker puts at stake for an odd, and
//! which side a match result favours.
use vstd::prelude::*;
use crate::types::{Balance, BetStatus, Odd, Odds, Prediction};
use sp_arithmetic::Percent;

verus! {

/// `percent` per cent of `amount`, rounded to the nearest integer, with a
/// half rounded down; a percentage above 100 counts as 100.
pub open spec fn percent_of_spec(percent: u8, amount: u64) -> int {
    let p: int = if percent > 100 { 100 } else { percent as int };
    let prod: int = amount * p;
    prod / 100 + if prod % 100 > 50 { 1int } else { 0int }
}

/// `a + b`, saturated at `u64::MAX`.
pub open spec fn sat_add(a: int, b: int) -> int {
    if a + b > u64::MAX { u64::MAX as int } else { a + b }
}

/// `a * b`, saturated at `u64::MAX`.
pub open spec fn sat_mul(a: int, b: int) -> int {
    if a * b > u64::MAX { u64::MAX as int } else { a * b }
}

/// What the bookmaker puts at stake on a bet of `amount` at `odd`: the
/// amount times the odd, saturated at `u64::MAX`.
pub open spec fn winnable_spec(odd: Odd, amount: Balance) -> int {
    sat_add(percent_of_spec(odd.1, amount), sat_mul(amount as int, odd.0 as int))
}

/// The winnable amount fits in a `Balance`.
pub proof fn lemma_winnable_fits(odd: Odd, amount: Balance)
    ensures
        0 <= winnable_spec(odd, amount) <= u64::MAX,
{
    let p: int = if odd.1 > 100 { 100 } else { odd.1 as int };
    assert(amount * p >= 0) by (nonlinear_arith)
        requires
            0 <= p,
            amount >= 0,
    ;
    assert(amount * odd.0 >= 0) by (nonlinear_arith)
        requires
            amount >= 0,
            odd.0 >= 0,
    ;
}

/// Calls `sp_arithmetic::Percent::from_percent(percent)` and multiplies the
/// percentage with `amount` (`Percent * u64`). The source clamps the
/// percentage at 100 and rounds the product to the nearest integer, a half
/// down; the contract states that.
#[verifier::external_body]
fn percent_of(percent: u8, amount: u64) -> (r: u64)
    ensures
        r == percent_of_spec(percent, amount),
{
    Percent::from_percent(percent) * amount
}

/// The amount that the bookmaker reserves for a bet of `amount` at `odd`,
/// and pays to the bettor when the bet is won.
pub fn winnable_amount(odd: Odd, amount: Balance) -> (r: Balance)
    ensures
        r == winnable_spec(odd, amount),
{
    let fractional = percent_of(odd.1, amount);
    let integral: u64 = match amount.checked_mul(odd.0 as u64) {
        Some(v) => v,
        None => u64::MAX,
    };
    fractional.saturating_add(integral)
}

/// Whether a bet on `prediction` is won by a match that ended with these
/// scores.
pub open spec fn prediction_wins(prediction: Prediction, home_score: u32, away_score: u32) -> bool {
    match prediction {
        Prediction::Homewin => home_score > away_score,
        Prediction::Awaywin => home_score < away_score,
        Prediction::Draw => home_score == away_score,
        Prediction::Over => home_score + away_score > 3,
        Prediction::Under => home_score + away_score < 3,
    }
}

/// Whether the scores can be added in a `u32`.
pub open spec fn scores_fit(home_score: u32, away_score: u32) -> bool {
    home_score + away_score <= u32::MAX
}

/// The status that a bet on `prediction` takes when the match ended with
/// these scores: `Won` or `Lost`. The total of the scores is needed only
/// for `Over` and `Under`, and must fit in a `u32` there.
pub fn bet_outcome(prediction: Prediction, home_score: u32, away_score: u32) -> (r: BetStatus)
    requires
        (prediction == Prediction::Over || prediction == Prediction::Under) ==> scores_fit(
            home_score,
            away_score,
        ),
    ensures
        r == (if prediction_wins(prediction, home_score, away_score) {
            BetStatus::Won
        } else {
            BetStatus::Lost
        }),
{
    match prediction {
        Prediction::Homewin if home_score > away_score => BetStatus::Won,
        Prediction::Awaywin if home_score < away_score => BetStatus::Won,
        Prediction::Draw if home_score == away_score => BetStatus::Won,
        Prediction::Over if home_score + away_score > 3 => BetStatus::Won,
        Prediction::Under if home_score + away_score < 3 => BetStatus::Won,
        _ => BetStatus::Lost,
    }
}

/// The odd that `odds` offer for `prediction`.
pub open spec fn odd_for(odds: Odds, prediction: Prediction) -> Odd {
    match prediction {
        Prediction::Homewin => odds.homewin,
        Prediction::Awaywin => odds.awaywin,
        Prediction::Draw => odds.draw,
        Prediction::Over => odds.over,
        Prediction::Under => odds.under,
    }
}

/// The odd that `odds` offer for `prediction`.
pub fn select_odd(odds: &Odds, prediction: Prediction) -> (r: Odd)
    ensures
        r == odd_for(*odds, prediction),
{
    match prediction {
        Prediction::Homewin => odds.homewin,
        Prediction::Awaywin => odds.awaywin,
        Prediction::Draw => odds.draw,
        Prediction::Over => odds.over,
        Prediction::Under => odds.under,
    }
}

} // verus!
