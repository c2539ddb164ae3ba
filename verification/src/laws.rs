//! What holds of the pallet across calls: refusals change nothing, the
//! stored data stays consistent, matches and bets only move forward, and
//! funds are reserved when a bet is placed and paid to the winner when it
//! is settled.
use vstd::prelude::*;
use crate::types::{
    AccountId, Balance, Bet, BetStatus, DispatchError, DispatchResult, MatchId, MatchStatus, Odd,
    Origin, Prediction, BetIndex, Error, Odds,
};
use crate::balances::{AccountData, free_of, reserved_of, total_of, reserve_spec};
use crate::payout::{odd_for, prediction_wins, winnable_spec, percent_of_spec, lemma_winnable_fits};
use crate::pallet::{
    Call, PalletState, payout_spec, odds_frac_valid, odds_int_valid, place_bet_spec, settle_bet_spec,
    state_valid, step, call_fits, module_err, place_bet_fits, settle_scores_fit, set_match_start_spec, set_odds_spec,
};

verus! {

/// A refused call leaves the pallet's state as it was.
pub proof fn law_refused_call_changes_nothing(
    s: PalletState,
    origin: Origin,
    call: Call,
    r: DispatchResult,
    t: PalletState,
)
    requires
        step(s, origin, call, r, t),
        r is Err,
    ensures
        t == s,
{
}

/// A call that no account signed is refused with `BadOrigin`.
pub proof fn law_unsigned_call_refused(
    s: PalletState,
    origin: Origin,
    call: Call,
    r: DispatchResult,
    t: PalletState,
)
    requires
        step(s, origin, call, r, t),
        !(origin is Signed),
    ensures
        r == Err::<(), DispatchError>(DispatchError::BadOrigin),
        t == s,
{
}

/// Whether the pallet's storage is consistent: bets are indexed from 0 to
/// the bet count; all stored odds are valid and belong to an existing
/// match; every bet is on stored odds, of an existing match, of a
/// bookmaker other than the bettor, at an odd whose integer part is at
/// least 1.
pub open spec fn pallet_invariant(s: PalletState) -> bool {
    &&& state_valid(s)
    &&& forall|k: (MatchId, AccountId)|
        #[trigger] s.odds.contains_key(k) ==> odds_frac_valid(s.odds[k]) && odds_int_valid(s.odds[k])
            && s.matches.contains_key(k.0)
    &&& forall|i: int|
        0 <= i < s.bets.len() ==> {
            &&& s.odds.contains_key(#[trigger] s.bets[i].id_odds)
            &&& s.matches.contains_key(s.bets[i].id_odds.0)
            &&& s.bets[i].owner != s.bets[i].id_odds.1
            &&& s.bets[i].odd.0 >= 1
        }
}

/// Every call keeps the pallet's storage consistent.
pub proof fn law_invariant_preserved(
    s: PalletState,
    origin: Origin,
    call: Call,
    r: DispatchResult,
    t: PalletState,
)
    requires
        pallet_invariant(s),
        call_fits(s, origin, call),
        step(s, origin, call, r, t),
    ensures
        pallet_invariant(t),
{
    if r is Ok {
        match call {
            Call::SetOdds { id_match, odds } => {
                let who = origin->Signed_0;
                assert forall|k: (MatchId, AccountId)| #[trigger] t.odds.contains_key(k) implies odds_frac_valid(t.odds[k]) && odds_int_valid(t.odds[k])
                    && t.matches.contains_key(k.0) by {
                    if k != (id_match, who) {
                        assert(s.odds.contains_key(k));
                    }
                }
                assert forall|i: int| 0 <= i < t.bets.len() implies {
                    &&& t.odds.contains_key(#[trigger] t.bets[i].id_odds)
                    &&& t.matches.contains_key(t.bets[i].id_odds.0)
                    &&& t.bets[i].owner != t.bets[i].id_odds.1
                    &&& t.bets[i].odd.0 >= 1
                } by {
                    assert(s.odds.contains_key(s.bets[i].id_odds));
                }
                assert(pallet_invariant(t));
            },
            Call::PlaceBet { id_match, odds_owner, prediction, amount } => {
                lemma_place_bet_keeps_invariant(s, origin->Signed_0, id_match, odds_owner, prediction, amount);
            },
            Call::SetRandomMatchResult { id_match } => {
                let (h, a) = choose|h: u32, a: u32|
                    h < 9 && a < 9 && (r, t) == crate::pallet::set_match_result_spec(
                        s,
                        origin,
                        id_match,
                        h,
                        a,
                    );
                lemma_only_matches_grow(s, t);
            },
            Call::SettleBet { id_bet } => {
                assert forall|i: int| 0 <= i < t.bets.len() implies {
                    &&& t.odds.contains_key(#[trigger] t.bets[i].id_odds)
                    &&& t.matches.contains_key(t.bets[i].id_odds.0)
                    &&& t.bets[i].owner != t.bets[i].id_odds.1
                    &&& t.bets[i].odd.0 >= 1
                } by {
                    assert(t.bets[i].id_odds == s.bets[i].id_odds);
                    assert(t.bets[i].owner == s.bets[i].owner);
                    assert(t.bets[i].odd == s.bets[i].odd);
                }
                assert(pallet_invariant(t));
            },
            Call::SetMatchStart { id_match, .. } => {
                lemma_only_matches_grow(s, t);
            },
            Call::SetMatchResult { id_match, .. } => {
                lemma_only_matches_grow(s, t);
            },
        }
    }
}

/// A successful bet keeps the storage consistent.
proof fn lemma_place_bet_keeps_invariant(
    s: PalletState,
    bettor: AccountId,
    id_match: MatchId,
    odds_owner: AccountId,
    prediction: Prediction,
    amount: Balance,
)
    requires
        pallet_invariant(s),
        s.bet_count < u64::MAX,
        place_bet_spec(s, Origin::Signed(bettor), id_match, odds_owner, prediction, amount).0 is Ok,
    ensures
        pallet_invariant(place_bet_spec(s, Origin::Signed(bettor), id_match, odds_owner, prediction, amount).1),
{
    let t = place_bet_spec(s, Origin::Signed(bettor), id_match, odds_owner, prediction, amount).1;
    assert(s.odds.contains_key((id_match, odds_owner)));
    let o = s.odds[(id_match, odds_owner)];
    assert(odd_for(o, prediction).0 >= 1);
    assert(t.odds == s.odds && t.matches == s.matches);
    assert(t.bets == s.bets.push(t.bets[s.bets.len() as int]));
    assert forall|i: int| 0 <= i < t.bets.len() implies {
        &&& t.odds.contains_key(#[trigger] t.bets[i].id_odds)
        &&& t.matches.contains_key(t.bets[i].id_odds.0)
        &&& t.bets[i].owner != t.bets[i].id_odds.1
        &&& t.bets[i].odd.0 >= 1
    } by {
        if i < s.bets.len() {
            assert(t.bets[i] == s.bets[i]);
        }
    }
    assert(state_valid(t));
    assert forall|k: (MatchId, AccountId)| #[trigger] t.odds.contains_key(k) implies odds_frac_valid(t.odds[k]) && odds_int_valid(t.odds[k])
        && t.matches.contains_key(k.0) by {
        assert(s.odds.contains_key(k));
    }
}

/// A call that changes only matches, and removes none, keeps the storage consistent.
proof fn lemma_only_matches_grow(s: PalletState, t: PalletState)
    requires
        pallet_invariant(s),
        t.odds == s.odds,
        t.bets == s.bets,
        t.bet_count == s.bet_count,
        forall|k: MatchId| s.matches.contains_key(k) ==> #[trigger] t.matches.contains_key(k),
    ensures
        pallet_invariant(t),
{
    assert forall|k: (MatchId, AccountId)| #[trigger] t.odds.contains_key(k) implies odds_frac_valid(t.odds[k]) && odds_int_valid(t.odds[k])
        && t.matches.contains_key(k.0) by {
        assert(s.odds.contains_key(k));
    }
    assert forall|i: int| 0 <= i < t.bets.len() implies {
        &&& t.odds.contains_key(#[trigger] t.bets[i].id_odds)
        &&& t.matches.contains_key(t.bets[i].id_odds.0)
        &&& t.bets[i].owner != t.bets[i].id_odds.1
        &&& t.bets[i].odd.0 >= 1
    } by {
        assert(s.odds.contains_key(s.bets[i].id_odds));
    }
}

/// How far a match has gone: locked, open, then closed or postponed.
pub open spec fn status_rank(status: MatchStatus) -> int {
    match status {
        MatchStatus::Locked => 0,
        MatchStatus::Open => 1,
        MatchStatus::Closed => 2,
        MatchStatus::Postponed => 2,
    }
}

/// No call removes a match or moves it back: a match goes from locked to
/// open to closed, a match that has opened keeps its start, and a closed or
/// postponed match, with its scores, stays as it is.
pub proof fn law_match_only_advances(
    s: PalletState,
    origin: Origin,
    call: Call,
    r: DispatchResult,
    t: PalletState,
    id: MatchId,
)
    requires
        step(s, origin, call, r, t),
        s.matches.contains_key(id),
    ensures
        t.matches.contains_key(id),
        status_rank(s.matches[id].status) <= status_rank(t.matches[id].status),
        status_rank(s.matches[id].status) == 2 ==> t.matches[id] == s.matches[id],
        s.matches[id].status != MatchStatus::Locked ==> t.matches[id].timestamp_start
            == s.matches[id].timestamp_start,
{
}

/// No call removes a bet or changes a settled one; a call changes at most
/// the status of an open bet, and a settled bet is won or lost.
pub proof fn law_settled_bets_stay(
    s: PalletState,
    origin: Origin,
    call: Call,
    r: DispatchResult,
    t: PalletState,
    i: int,
)
    requires
        step(s, origin, call, r, t),
        0 <= i < s.bets.len(),
    ensures
        i < t.bets.len(),
        s.bets[i].status != BetStatus::Open ==> t.bets[i] == s.bets[i],
        t.bets[i].owner == s.bets[i].owner,
        t.bets[i].id_odds == s.bets[i].id_odds,
        t.bets[i].prediction == s.bets[i].prediction,
        t.bets[i].odd == s.bets[i].odd,
        t.bets[i].amount == s.bets[i].amount,
{
    match call {
        Call::PlaceBet { .. } => {
            if r is Ok {
                assert(t.bets[i] == s.bets[i]);
            }
        },
        Call::SettleBet { id_bet } => {
            if r is Ok && i == id_bet {
                assert(s.bets[i].status == BetStatus::Open);
            }
        },
        _ => {},
    }
}

/// The funds of `who` are as `free` and `reserved` say.
pub open spec fn has_funds(s: PalletState, who: AccountId, free: int, reserved: int) -> bool {
    free_of(s.balances, who) == free && reserved_of(s.balances, who) == reserved
}

/// Placing a bet reserves the amount wagered in the bettor's account and
/// the amount times the odd in the bookmaker's account; no other account
/// changes, and the bet is stored, open, under the previous bet count,
/// which grows by one.
pub proof fn law_place_bet_reserves_stakes(
    s: PalletState,
    bettor: AccountId,
    id_match: MatchId,
    odds_owner: AccountId,
    prediction: Prediction,
    amount: Balance,
)
    requires
        state_valid(s),
        s.bet_count < u64::MAX,
        place_bet_spec(s, Origin::Signed(bettor), id_match, odds_owner, prediction, amount).0 is Ok,
    ensures
        ({
            let t = place_bet_spec(s, Origin::Signed(bettor), id_match, odds_owner, prediction, amount).1;
            let winnable = winnable_spec(odd_for(s.odds[(id_match, odds_owner)], prediction), amount);
            &&& has_funds(
                t,
                bettor,
                free_of(s.balances, bettor) - amount,
                reserved_of(s.balances, bettor) + amount,
            )
            &&& has_funds(
                t,
                odds_owner,
                free_of(s.balances, odds_owner) - winnable,
                reserved_of(s.balances, odds_owner) + winnable,
            )
            &&& forall|a: AccountId|
                a != bettor && a != odds_owner ==> #[trigger] free_of(t.balances, a) == free_of(
                    s.balances,
                    a,
                ) && reserved_of(t.balances, a) == reserved_of(s.balances, a)
            &&& t.bet_count == s.bet_count + 1
            &&& t.bets.len() == s.bets.len() + 1
            &&& t.bets[s.bet_count as int].owner == bettor
            &&& t.bets[s.bet_count as int].id_odds == (id_match, odds_owner)
            &&& t.bets[s.bet_count as int].amount == amount
            &&& t.bets[s.bet_count as int].status == BetStatus::Open
        }),
{
    let odd = odd_for(s.odds[(id_match, odds_owner)], prediction);
    lemma_winnable_fits(odd, amount);
    let w = winnable_spec(odd, amount) as u64;
    let (r1, b1) = reserve_spec(s.balances, bettor, amount);
    let (r2, b2) = reserve_spec(b1, odds_owner, w);
    assert(r1 is Ok && r2 is Ok);
    let t = place_bet_spec(s, Origin::Signed(bettor), id_match, odds_owner, prediction, amount).1;
    assert(t.balances == b2);
    assert(free_of(b1, odds_owner) == free_of(s.balances, odds_owner));
    assert(reserved_of(b1, odds_owner) == reserved_of(s.balances, odds_owner));
    assert(free_of(b2, bettor) == free_of(b1, bettor));
    assert(reserved_of(b2, bettor) == reserved_of(b1, bettor));
    let winnable = winnable_spec(odd, amount);
    assert(has_funds(t, bettor, free_of(s.balances, bettor) - amount, reserved_of(s.balances, bettor) + amount));
    assert(has_funds(t, odds_owner, free_of(s.balances, odds_owner) - winnable, reserved_of(s.balances, odds_owner) + winnable));
    assert(forall|a: AccountId|
                a != bettor && a != odds_owner ==> #[trigger] free_of(t.balances, a) == free_of(
                    s.balances,
                    a,
                ) && reserved_of(t.balances, a) == reserved_of(s.balances, a));
    assert(t.bet_count == s.bet_count + 1);
    assert(t.bets.len() == s.bets.len() + 1);
    assert(t.bets[s.bet_count as int].owner == bettor);
}

/// Settling a bet whose stakes are still reserved pays the winner: when
/// the bet is won, the bettor receives the winnable amount from the
/// bookmaker's reserve and the bookmaker the stake from the bettor's
/// reserve; when it is lost, the bookmaker receives the stake and gets its
/// winnable amount back. The bet takes the status `Won` or `Lost`.
pub proof fn law_settle_pays_winner(s: PalletState, origin: Origin, id_bet: BetIndex)
    requires
        state_valid(s),
        settle_bet_spec(s, origin, id_bet).0 is Ok,
        ({
            let bet = s.bets[id_bet as int];
            let winnable = winnable_spec(bet.odd, bet.amount);
            let bookie = bet.id_odds.1;
            &&& bet.owner != bookie
            &&& reserved_of(s.balances, bookie) >= winnable
            &&& reserved_of(s.balances, bet.owner) >= bet.amount
            &&& total_of(s.balances, bookie) + total_of(s.balances, bet.owner) <= u64::MAX
        }),
    ensures
        ({
            let t = settle_bet_spec(s, origin, id_bet).1;
            let bet = s.bets[id_bet as int];
            let m = s.matches[bet.id_odds.0];
            let won = prediction_wins(bet.prediction, m.home_score, m.away_score);
            let winnable = winnable_spec(bet.odd, bet.amount);
            let bookie = bet.id_odds.1;
            let bettor = bet.owner;
            &&& won ==> has_funds(
                t,
                bettor,
                free_of(s.balances, bettor) + winnable,
                reserved_of(s.balances, bettor) - bet.amount,
            )
            &&& won ==> has_funds(
                t,
                bookie,
                free_of(s.balances, bookie) + bet.amount,
                reserved_of(s.balances, bookie) - winnable,
            )
            &&& !won ==> has_funds(
                t,
                bettor,
                free_of(s.balances, bettor),
                reserved_of(s.balances, bettor) - bet.amount,
            )
            &&& !won ==> has_funds(
                t,
                bookie,
                free_of(s.balances, bookie) + bet.amount + winnable,
                reserved_of(s.balances, bookie) - winnable,
            )
            &&& forall|a: AccountId|
                a != bettor && a != bookie ==> #[trigger] free_of(t.balances, a) == free_of(
                    s.balances,
                    a,
                ) && reserved_of(t.balances, a) == reserved_of(s.balances, a)
            &&& t.bets[id_bet as int].status == (if won {
                BetStatus::Won
            } else {
                BetStatus::Lost
            })
        }),
{
}

/// No call creates or destroys funds: placing a bet keeps the funds of
/// every account, and settling one moves funds only between the bettor
/// and the bookmaker, keeping their sum, when that sum fits in a `Balance`.
pub proof fn law_funds_conserved(
    s: PalletState,
    origin: Origin,
    call: Call,
    r: DispatchResult,
    t: PalletState,
)
    requires
        pallet_invariant(s),
        step(s, origin, call, r, t),
        call matches Call::SettleBet { id_bet } ==> (id_bet < s.bets.len() ==> total_of(
            s.balances,
            s.bets[id_bet as int].owner,
        ) + total_of(s.balances, s.bets[id_bet as int].id_odds.1) <= u64::MAX),
    ensures
        match call {
            Call::SettleBet { id_bet } => (r is Ok ==> {
                let bettor = s.bets[id_bet as int].owner;
                let bookie = s.bets[id_bet as int].id_odds.1;
                &&& total_of(t.balances, bettor) + total_of(t.balances, bookie) == total_of(
                    s.balances,
                    bettor,
                ) + total_of(s.balances, bookie)
                &&& forall|a: AccountId|
                    a != bettor && a != bookie ==> #[trigger] total_of(t.balances, a) == total_of(
                        s.balances,
                        a,
                    )
            }),
            _ => forall|a: AccountId| #[trigger] total_of(t.balances, a) == total_of(s.balances, a),
        },
{
}

/// A bookmaker stakes at least the amount wagered: with an integer part of
/// at least 1, the winnable amount is at least the amount.
pub proof fn law_winnable_covers_stake(odd: Odd, amount: Balance)
    requires
        odd.0 >= 1,
    ensures
        winnable_spec(odd, amount) >= amount,
        percent_of_spec(odd.1, amount) <= amount,
{
    assert(amount * odd.0 >= amount) by (nonlinear_arith)
        requires
            odd.0 >= 1,
    ;
    let p: int = if odd.1 > 100 { 100 } else { odd.1 as int };
    assert(amount * p <= amount * 100) by (nonlinear_arith)
        requires
            0 <= p <= 100,
            amount >= 0,
    ;
}

/// What bet `b` holds reserved in account `a` while it is open: the stake
/// in the bettor's account and the winnable amount in the bookmaker's.
pub open spec fn bet_hold(b: Bet, a: AccountId) -> int {
    if b.status == BetStatus::Open {
        (if b.owner == a { b.amount as int } else { 0 }) + (if b.id_odds.1 == a {
            winnable_spec(b.odd, b.amount)
        } else {
            0
        })
    } else {
        0
    }
}

/// What the bets `bets` hold reserved in account `a`.
pub open spec fn held(bets: Seq<Bet>, a: AccountId) -> int
    decreases bets.len(),
{
    if bets.len() == 0 {
        0
    } else {
        held(bets.drop_last(), a) + bet_hold(bets.last(), a)
    }
}

/// Whether every account has at least what the open bets hold in it reserved.
pub open spec fn escrow_covered(s: PalletState) -> bool {
    forall|a: AccountId| #[trigger] held(s.bets, a) <= reserved_of(s.balances, a)
}

/// A bet holds nothing negative.
proof fn lemma_hold_nonneg(b: Bet, a: AccountId)
    ensures
        bet_hold(b, a) >= 0,
{
    lemma_winnable_fits(b.odd, b.amount);
}

/// Each bet holds at most what all of them hold, which is not negative.
proof fn lemma_hold_le_held(bets: Seq<Bet>, i: int, a: AccountId)
    requires
        0 <= i < bets.len(),
    ensures
        0 <= bet_hold(bets[i], a) <= held(bets, a),
    decreases bets.len(),
{
    lemma_hold_nonneg(bets.last(), a);
    lemma_held_nonneg(bets.drop_last(), a);
    if i < bets.len() - 1 {
        lemma_hold_le_held(bets.drop_last(), i, a);
    }
    lemma_hold_nonneg(bets[i], a);
}

/// Bets hold nothing negative.
proof fn lemma_held_nonneg(bets: Seq<Bet>, a: AccountId)
    ensures
        held(bets, a) >= 0,
    decreases bets.len(),
{
    if bets.len() > 0 {
        lemma_held_nonneg(bets.drop_last(), a);
        lemma_hold_nonneg(bets.last(), a);
    }
}

/// A new bet adds what it holds.
proof fn lemma_held_push(bets: Seq<Bet>, b: Bet, a: AccountId)
    ensures
        held(bets.push(b), a) == held(bets, a) + bet_hold(b, a),
{
    assert(bets.push(b).drop_last() == bets);
}

/// Replacing a bet replaces what it holds.
proof fn lemma_held_update(bets: Seq<Bet>, i: int, b: Bet, a: AccountId)
    requires
        0 <= i < bets.len(),
    ensures
        held(bets.update(i, b), a) == held(bets, a) - bet_hold(bets[i], a) + bet_hold(b, a),
    decreases bets.len(),
{
    let u = bets.update(i, b);
    if i == bets.len() - 1 {
        assert(u.drop_last() == bets.drop_last());
    } else {
        assert(u.drop_last() == bets.drop_last().update(i, b));
        lemma_held_update(bets.drop_last(), i, b, a);
    }
}

/// With its stakes reserved, a successful payout takes exactly the stake
/// from the bettor's reserve and the winnable amount from the bookmaker's.
proof fn lemma_payout_reserved(
    m: Map<AccountId, AccountData>,
    bettor: AccountId,
    bookie: AccountId,
    amount: Balance,
    winnable: Balance,
    won: bool,
)
    requires
        bettor != bookie,
        reserved_of(m, bookie) >= winnable,
        reserved_of(m, bettor) >= amount,
        payout_spec(m, bettor, bookie, amount, winnable, won).0 is Ok,
    ensures
        ({
            let m2 = payout_spec(m, bettor, bookie, amount, winnable, won).1;
            &&& reserved_of(m2, bettor) == reserved_of(m, bettor) - amount
            &&& reserved_of(m2, bookie) == reserved_of(m, bookie) - winnable
            &&& forall|a: AccountId|
                a != bettor && a != bookie ==> #[trigger] reserved_of(m2, a) == reserved_of(m, a)
        }),
{
}

/// Every call keeps the stakes of the open bets reserved: each account has
/// at least what the open bets hold in it reserved.
pub proof fn law_escrow_preserved(
    s: PalletState,
    origin: Origin,
    call: Call,
    r: DispatchResult,
    t: PalletState,
)
    requires
        pallet_invariant(s),
        escrow_covered(s),
        call_fits(s, origin, call),
        step(s, origin, call, r, t),
    ensures
        escrow_covered(t),
{
    if r is Ok {
        match call {
            Call::PlaceBet { id_match, odds_owner, prediction, amount } => {
                let bettor = origin->Signed_0;
                law_place_bet_reserves_stakes(s, bettor, id_match, odds_owner, prediction, amount);
                let b = t.bets[s.bets.len() as int];
                assert(t.bets == s.bets.push(b));
                assert forall|a: AccountId| #[trigger] held(t.bets, a) <= reserved_of(t.balances, a) by {
                    lemma_held_push(s.bets, b, a);
                    assert(held(s.bets, a) <= reserved_of(s.balances, a));
                }
            },
            Call::SettleBet { id_bet } => {
                let i = id_bet as int;
                let bet = s.bets[i];
                let bookie = bet.id_odds.1;
                let w = winnable_spec(bet.odd, bet.amount);
                let m = s.matches[bet.id_odds.0];
                let won = prediction_wins(bet.prediction, m.home_score, m.away_score);
                lemma_winnable_fits(bet.odd, bet.amount);
                lemma_hold_le_held(s.bets, i, bookie);
                lemma_hold_le_held(s.bets, i, bet.owner);
                assert(held(s.bets, bookie) <= reserved_of(s.balances, bookie));
                assert(held(s.bets, bet.owner) <= reserved_of(s.balances, bet.owner));
                lemma_payout_reserved(s.balances, bet.owner, bookie, bet.amount, w as u64, won);
                let nb = t.bets[i];
                assert(t.bets == s.bets.update(i, nb));
                assert forall|a: AccountId| #[trigger] held(t.bets, a) <= reserved_of(t.balances, a) by {
                    lemma_held_update(s.bets, i, nb, a);
                    assert(held(s.bets, a) <= reserved_of(s.balances, a));
                }
            },
            Call::SetRandomMatchResult { id_match } => {
                let (h, a) = choose|h: u32, a: u32|
                    h < 9 && a < 9 && (r, t) == crate::pallet::set_match_result_spec(
                        s,
                        origin,
                        id_match,
                        h,
                        a,
                    );
                assert(t.bets == s.bets && t.balances == s.balances);
            },
            _ => {
                assert(t.bets == s.bets && t.balances == s.balances);
            },
        }
    }
}

/// Settling an open bet on a closed or postponed match succeeds whenever
/// the stakes of the open bets are reserved and the funds of the bettor
/// and the bookmaker together fit in a `Balance`.
pub proof fn law_settle_succeeds(s: PalletState, who: AccountId, id_bet: BetIndex)
    requires
        pallet_invariant(s),
        escrow_covered(s),
        id_bet < s.bets.len(),
        s.bets[id_bet as int].status == BetStatus::Open,
        s.matches[s.bets[id_bet as int].id_odds.0].status == MatchStatus::Closed
            || s.matches[s.bets[id_bet as int].id_odds.0].status == MatchStatus::Postponed,
        total_of(s.balances, s.bets[id_bet as int].owner) + total_of(
            s.balances,
            s.bets[id_bet as int].id_odds.1,
        ) <= u64::MAX,
    ensures
        settle_bet_spec(s, Origin::Signed(who), id_bet).0 is Ok,
{
    let i = id_bet as int;
    let bet = s.bets[i];
    let bookie = bet.id_odds.1;
    let w = winnable_spec(bet.odd, bet.amount);
    assert(s.matches.contains_key(bet.id_odds.0));
    lemma_winnable_fits(bet.odd, bet.amount);
    law_winnable_covers_stake(bet.odd, bet.amount);
    lemma_hold_le_held(s.bets, i, bookie);
    lemma_hold_le_held(s.bets, i, bet.owner);
    assert(held(s.bets, bookie) <= reserved_of(s.balances, bookie));
    assert(held(s.bets, bet.owner) <= reserved_of(s.balances, bet.owner));
    if bet.amount == 0 {
        assert(bet.amount * bet.odd.0 == 0);
        assert(bet.amount * (if bet.odd.1 > 100 { 100 } else { bet.odd.1 as int }) == 0);
        assert(w == 0);
    }
}

/// A new pallet, with no matches, odds or bets, has consistent storage and
/// holds no stakes.
pub proof fn law_initial_state(s: PalletState)
    requires
        s.matches == Map::<MatchId, crate::types::Match>::empty(),
        s.odds == Map::<(MatchId, AccountId), crate::types::Odds>::empty(),
        s.bets == Seq::<Bet>::empty(),
        s.bet_count == 0,
    ensures
        pallet_invariant(s),
        escrow_covered(s),
{
}

/// The events only grow: a call keeps every event reported before it, and
/// a refused call reports none.
pub proof fn law_events_only_grow(
    s: PalletState,
    origin: Origin,
    call: Call,
    r: DispatchResult,
    t: PalletState,
)
    requires
        step(s, origin, call, r, t),
    ensures
        s.events.len() <= t.events.len(),
        t.events.take(s.events.len() as int) == s.events,
        r is Err ==> t.events == s.events,
        r is Ok ==> t.events.len() > s.events.len(),
{
    match call {
        Call::SetRandomMatchResult { id_match } => {
            let (h, a) = choose|h: u32, a: u32|
                h < 9 && a < 9 && (r, t) == crate::pallet::set_match_result_spec(
                    s,
                    origin,
                    id_match,
                    h,
                    a,
                );
            assert(t.events.take(s.events.len() as int) == s.events);
        },
        Call::SetOdds { .. } => {
            if r is Ok {
                assert(t.events.take(s.events.len() as int) == s.events);
            }
        },
        _ => {
            assert(t.events.take(s.events.len() as int) == s.events);
        },
    }
}

/// The winnable amount is the amount times the odd, the integer part plus
/// the fractional part in hundredths, rounded to the nearest integer with a
/// half rounded down, whenever that product fits in a `Balance`.
pub proof fn law_winnable_is_amount_times_odd(odd: Odd, amount: Balance)
    requires
        odd.1 <= 100,
        amount * (100 * odd.0 + odd.1) <= 100 * (u64::MAX as int),
    ensures
        ({
            let x = amount * (100 * odd.0 + odd.1);
            winnable_spec(odd, amount) == x / 100 + (if x % 100 > 50 { 1int } else { 0int })
        }),
{
    let a = amount as int;
    let i = odd.0 as int;
    let f = odd.1 as int;
    let x = a * (100 * i + f);
    assert(x == (a * i) * 100 + a * f) by (nonlinear_arith)
        requires
            x == a * (100 * i + f),
    ;
    vstd::arithmetic::div_mod::lemma_fundamental_div_mod(a * f, 100);
    vstd::arithmetic::div_mod::lemma_mod_pos_bound(a * f, 100);
    let q = a * i + (a * f) / 100;
    let r = (a * f) % 100;
    assert(x == q * 100 + r) by (nonlinear_arith)
        requires
            x == (a * i) * 100 + a * f,
            a * f == 100 * ((a * f) / 100) + r,
            q == a * i + (a * f) / 100,
    ;
    vstd::arithmetic::div_mod::lemma_fundamental_div_mod_converse(x, 100, q, r);
    assert(a * f >= 0) by (nonlinear_arith)
        requires
            a >= 0,
            f >= 0,
    ;
    assert(a * i * 100 <= x) by (nonlinear_arith)
        requires
            x == (a * i) * 100 + a * f,
            a * f >= 0,
    ;
}

/// Whether `states` is a run of the pallet: each call of `calls`, made by
/// its origin, gives its answer and leads from one state to the next.
pub open spec fn is_run(states: Seq<PalletState>, calls: Seq<(Origin, Call, DispatchResult)>) -> bool {
    &&& states.len() == calls.len() + 1
    &&& forall|i: int|
        #![trigger calls[i]]
        0 <= i < calls.len() ==> step(states[i], calls[i].0, calls[i].1, calls[i].2, states[i + 1])
}

/// Along a run, a match stays stored and never moves back; once it has
/// opened it keeps its start and is never locked again; once closed or
/// postponed it stays as it is.
proof fn lemma_run_keeps_match(
    states: Seq<PalletState>,
    calls: Seq<(Origin, Call, DispatchResult)>,
    i: int,
    j: int,
    id: MatchId,
)
    requires
        is_run(states, calls),
        0 <= i <= j < states.len(),
        states[i].matches.contains_key(id),
    ensures
        states[j].matches.contains_key(id),
        status_rank(states[i].matches[id].status) <= status_rank(states[j].matches[id].status),
        status_rank(states[i].matches[id].status) == 2 ==> states[j].matches[id]
            == states[i].matches[id],
        states[i].matches[id].status != MatchStatus::Locked ==> {
            &&& states[j].matches[id].status != MatchStatus::Locked
            &&& states[j].matches[id].timestamp_start == states[i].matches[id].timestamp_start
        },
    decreases j - i,
{
    if j > i {
        lemma_run_keeps_match(states, calls, i, j - 1, id);
        let c = calls[j - 1];
        law_match_only_advances(states[j - 1], c.0, c.1, c.2, states[j], id);
    }
}

/// Along a run, a bet stays stored with its bettor, odds, prediction, odd
/// and amount, and once settled it stays as it is.
proof fn lemma_run_keeps_bet(
    states: Seq<PalletState>,
    calls: Seq<(Origin, Call, DispatchResult)>,
    i: int,
    j: int,
    n: int,
)
    requires
        is_run(states, calls),
        0 <= i <= j < states.len(),
        0 <= n < states[i].bets.len(),
    ensures
        n < states[j].bets.len(),
        states[i].bets[n].status != BetStatus::Open ==> states[j].bets[n] == states[i].bets[n],
        states[j].bets[n].owner == states[i].bets[n].owner,
        states[j].bets[n].id_odds == states[i].bets[n].id_odds,
        states[j].bets[n].prediction == states[i].bets[n].prediction,
        states[j].bets[n].odd == states[i].bets[n].odd,
        states[j].bets[n].amount == states[i].bets[n].amount,
    decreases j - i,
{
    if j > i {
        lemma_run_keeps_bet(states, calls, i, j - 1, n);
        let c = calls[j - 1];
        law_settled_bets_stay(states[j - 1], c.0, c.1, c.2, states[j], n);
    }
}

/// Once a match has been closed, by given or by random scores, no bet can
/// be placed on it: at any later point of the run, a bet of any signed
/// account other than the bookmaker, at stored odds on the match, is
/// refused with `MatchClosed` and changes nothing, whatever the bet count.
pub proof fn law_closed_match_takes_no_bets(
    states: Seq<PalletState>,
    calls: Seq<(Origin, Call, DispatchResult)>,
    i: int,
    j: int,
    id: MatchId,
    bettor: AccountId,
    odds_owner: AccountId,
    prediction: Prediction,
    amount: Balance,
)
    requires
        is_run(states, calls),
        0 <= i < calls.len(),
        i < j < states.len(),
        calls[i].2 is Ok,
        (calls[i].1 matches Call::SetMatchResult { id_match, .. } && id_match == id)
            || (calls[i].1 matches Call::SetRandomMatchResult { id_match } && id_match == id),
        states[j].odds.contains_key((id, odds_owner)),
        bettor != odds_owner,
    ensures
        place_bet_spec(states[j], Origin::Signed(bettor), id, odds_owner, prediction, amount) == (
        module_err(Error::MatchClosed), states[j]),
        place_bet_fits(states[j], Origin::Signed(bettor), id, odds_owner, prediction, amount),
{
    let c = calls[i];
    assert(step(states[i], c.0, c.1, c.2, states[i + 1]));
    assert(states[i + 1].matches.contains_key(id) && states[i + 1].matches[id].status
        == MatchStatus::Closed);
    lemma_run_keeps_match(states, calls, i + 1, j, id);
}

/// A bet is paid out at most once: after it has been settled, every later
/// attempt to settle it, by any signed account, is refused with
/// `BetSettled` and changes no bet and no balance, whatever the scores.
pub proof fn law_bet_pays_once(
    states: Seq<PalletState>,
    calls: Seq<(Origin, Call, DispatchResult)>,
    i: int,
    j: int,
    id_bet: BetIndex,
    who: AccountId,
)
    requires
        is_run(states, calls),
        0 <= i < calls.len(),
        i < j < states.len(),
        calls[i].1 == (Call::SettleBet { id_bet }),
        calls[i].2 is Ok,
    ensures
        id_bet < states[j].bets.len(),
        states[j].bets[id_bet as int] == states[i + 1].bets[id_bet as int],
        states[j].bets[id_bet as int].status != BetStatus::Open,
        settle_bet_spec(states[j], Origin::Signed(who), id_bet) == (
        module_err(Error::BetSettled), states[j]),
        settle_scores_fit(states[j], Origin::Signed(who), id_bet),
{
    let c = calls[i];
    assert(step(states[i], c.0, c.1, c.2, states[i + 1]));
    lemma_run_keeps_bet(states, calls, i + 1, j, id_bet as int);
}

/// A bet keeps the odd it was placed at: whatever happens later in the
/// run, among others the bookmaker offering new odds on the match, the bet
/// keeps its bettor, odds, prediction, amount and odd, the odd that the
/// bookmaker offered for the prediction when the bet was placed.
pub proof fn law_bet_keeps_its_odd(
    states: Seq<PalletState>,
    calls: Seq<(Origin, Call, DispatchResult)>,
    i: int,
    j: int,
    bettor: AccountId,
    id_match: MatchId,
    odds_owner: AccountId,
    prediction: Prediction,
    amount: Balance,
)
    requires
        is_run(states, calls),
        0 <= i < calls.len(),
        i < j < states.len(),
        calls[i].0 == Origin::Signed(bettor),
        calls[i].1 == (Call::PlaceBet { id_match, odds_owner, prediction, amount }),
        calls[i].2 is Ok,
    ensures
        ({
            let n = states[i].bets.len() as int;
            let b = states[j].bets[n];
            &&& n < states[j].bets.len()
            &&& b.owner == bettor
            &&& b.id_odds == (id_match, odds_owner)
            &&& b.prediction == prediction
            &&& b.amount == amount
            &&& b.odd == odd_for(states[i].odds[(id_match, odds_owner)], prediction)
        }),
{
    let c = calls[i];
    assert(step(states[i], c.0, c.1, c.2, states[i + 1]));
    lemma_run_keeps_bet(states, calls, i + 1, j, states[i].bets.len() as int);
}

/// New odds do not touch the bets placed before them: at any point of a
/// run after a bet was placed, its bookmaker may offer valid new odds on the
/// match; the call succeeds, stores the new odds, leaves the match as it
/// is, and the bet keeps the odd it was placed at.
pub proof fn law_new_odds_keep_placed_bets(
    states: Seq<PalletState>,
    calls: Seq<(Origin, Call, DispatchResult)>,
    i: int,
    j: int,
    bettor: AccountId,
    id_match: MatchId,
    odds_owner: AccountId,
    prediction: Prediction,
    amount: Balance,
    new_odds: Odds,
)
    requires
        is_run(states, calls),
        0 <= i < calls.len(),
        i < j < states.len(),
        calls[i].0 == Origin::Signed(bettor),
        calls[i].1 == (Call::PlaceBet { id_match, odds_owner, prediction, amount }),
        calls[i].2 is Ok,
        odds_frac_valid(new_odds),
        odds_int_valid(new_odds),
    ensures
        ({
            let n = states[i].bets.len() as int;
            let (r, t) = set_odds_spec(states[j], Origin::Signed(odds_owner), id_match, new_odds);
            &&& r is Ok
            &&& t.odds[(id_match, odds_owner)] == new_odds
            &&& t.matches[id_match] == states[j].matches[id_match]
            &&& t.bets == states[j].bets
            &&& t.bets[n].odd == odd_for(states[i].odds[(id_match, odds_owner)], prediction)
        }),
{
    let c = calls[i];
    assert(step(states[i], c.0, c.1, c.2, states[i + 1]));
    lemma_run_keeps_bet(states, calls, i + 1, j, states[i].bets.len() as int);
    lemma_run_keeps_match(states, calls, i + 1, j, id_match);
}

/// A match opens at most once: after it has opened at `timestamp_start`,
/// it is never locked again and keeps that start, whatever follows
/// (closing it among others), and every later attempt to open it, by any
/// signed account, is refused with `MatchNotLocked` and changes nothing.
pub proof fn law_match_opens_once(
    states: Seq<PalletState>,
    calls: Seq<(Origin, Call, DispatchResult)>,
    i: int,
    j: int,
    id: MatchId,
    timestamp_start: u64,
    who: AccountId,
    later_start: u64,
)
    requires
        is_run(states, calls),
        0 <= i < calls.len(),
        i < j < states.len(),
        calls[i].1 == (Call::SetMatchStart { id_match: id, timestamp_start }),
        calls[i].2 is Ok,
    ensures
        states[j].matches.contains_key(id),
        states[j].matches[id].status != MatchStatus::Locked,
        states[j].matches[id].timestamp_start == timestamp_start,
        set_match_start_spec(states[j], Origin::Signed(who), id, later_start) == (
        module_err(Error::MatchNotLocked), states[j]),
{
    let c = calls[i];
    assert(step(states[i], c.0, c.1, c.2, states[i + 1]));
    lemma_run_keeps_match(states, calls, i + 1, j, id);
}

/// Along any run of calls that fit the machine, from a state whose storage
/// is consistent and whose open bets have their stakes reserved (a new
/// pallet among others), every state stays so: each account keeps reserved
/// at least what the open bets hold in it, so that settling an open bet on
/// a closed or postponed match moves the full amounts (see
/// `law_settle_succeeds`).
pub proof fn law_escrow_along_runs(
    states: Seq<PalletState>,
    calls: Seq<(Origin, Call, DispatchResult)>,
    j: int,
)
    requires
        is_run(states, calls),
        pallet_invariant(states[0]),
        escrow_covered(states[0]),
        forall|i: int| #![trigger calls[i]] 0 <= i < calls.len() ==> call_fits(
            states[i],
            calls[i].0,
            calls[i].1,
        ),
        0 <= j < states.len(),
    ensures
        pallet_invariant(states[j]),
        escrow_covered(states[j]),
    decreases j,
{
    if j > 0 {
        law_escrow_along_runs(states, calls, j - 1);
        let c = calls[j - 1];
        law_invariant_preserved(states[j - 1], c.0, c.1, c.2, states[j]);
        law_escrow_preserved(states[j - 1], c.0, c.1, c.2, states[j]);
    }
}

/// A settled bet is decided by its match's final scores alone: a home-win
/// bet is won exactly when the home side scored strictly more, an away-win
/// bet exactly when the away side did, a draw bet exactly when the scores
/// are equal, an over bet exactly when more than three goals were scored
/// in all and an under bet exactly when fewer than three were. A won bet
/// pays the bettor the winnable amount and the bookmaker the stake; a lost
/// bet pays the bookmaker the stake and gives it its winnable amount back,
/// whenever those amounts are reserved and the two accounts' funds fit in
/// a `Balance`.
pub proof fn law_settle_decided_by_scores(s: PalletState, who: AccountId, id_bet: BetIndex)
    requires
        state_valid(s),
        settle_bet_spec(s, Origin::Signed(who), id_bet).0 is Ok,
    ensures
        ({
            let t = settle_bet_spec(s, Origin::Signed(who), id_bet).1;
            let bet = s.bets[id_bet as int];
            let m = s.matches[bet.id_odds.0];
            let h = m.home_score as int;
            let a = m.away_score as int;
            let won = t.bets[id_bet as int].status == BetStatus::Won;
            &&& m.status == MatchStatus::Closed || m.status == MatchStatus::Postponed
            &&& won || t.bets[id_bet as int].status == BetStatus::Lost
            &&& bet.prediction == Prediction::Homewin ==> (won <==> h > a)
            &&& bet.prediction == Prediction::Awaywin ==> (won <==> h < a)
            &&& bet.prediction == Prediction::Draw ==> (won <==> h == a)
            &&& bet.prediction == Prediction::Over ==> (won <==> h + a > 3)
            &&& bet.prediction == Prediction::Under ==> (won <==> h + a < 3)
        }),
        ({
            let t = settle_bet_spec(s, Origin::Signed(who), id_bet).1;
            let bet = s.bets[id_bet as int];
            let winnable = winnable_spec(bet.odd, bet.amount);
            let bookie = bet.id_odds.1;
            let bettor = bet.owner;
            let won = t.bets[id_bet as int].status == BetStatus::Won;
            (bettor != bookie && reserved_of(s.balances, bookie) >= winnable && reserved_of(
                s.balances,
                bettor,
            ) >= bet.amount && total_of(s.balances, bookie) + total_of(s.balances, bettor)
                <= u64::MAX) ==> {
                &&& won ==> has_funds(
                    t,
                    bettor,
                    free_of(s.balances, bettor) + winnable,
                    reserved_of(s.balances, bettor) - bet.amount,
                )
                &&& won ==> has_funds(
                    t,
                    bookie,
                    free_of(s.balances, bookie) + bet.amount,
                    reserved_of(s.balances, bookie) - winnable,
                )
                &&& !won ==> has_funds(
                    t,
                    bettor,
                    free_of(s.balances, bettor),
                    reserved_of(s.balances, bettor) - bet.amount,
                )
                &&& !won ==> has_funds(
                    t,
                    bookie,
                    free_of(s.balances, bookie) + bet.amount + winnable,
                    reserved_of(s.balances, bookie) - winnable,
                )
            }
        }),
{
    let bet = s.bets[id_bet as int];
    let winnable = winnable_spec(bet.odd, bet.amount);
    let bookie = bet.id_odds.1;
    if bet.owner != bookie && reserved_of(s.balances, bookie) >= winnable && reserved_of(
        s.balances,
        bet.owner,
    ) >= bet.amount && total_of(s.balances, bookie) + total_of(s.balances, bet.owner)
        <= u64::MAX {
        law_settle_pays_winner(s, Origin::Signed(who), id_bet);
    }
}

/// A bet is placed at the bookmaker's odd for its prediction, read by
/// name: a home-win bet at the home-win odd, an away-win bet at the
/// away-win odd, a draw bet at the draw odd, an over bet at the over odd
/// and an under bet at the under odd; the bookmaker reserves the winnable
/// amount at that odd, and the bettor the stake.
pub proof fn law_bet_placed_at_its_odd(
    s: PalletState,
    bettor: AccountId,
    id_match: MatchId,
    odds_owner: AccountId,
    prediction: Prediction,
    amount: Balance,
)
    requires
        state_valid(s),
        place_bet_fits(s, Origin::Signed(bettor), id_match, odds_owner, prediction, amount),
        place_bet_spec(s, Origin::Signed(bettor), id_match, odds_owner, prediction, amount).0 is Ok,
    ensures
        ({
            let t = place_bet_spec(s, Origin::Signed(bettor), id_match, odds_owner, prediction, amount).1;
            let o = s.odds[(id_match, odds_owner)];
            let b = t.bets[s.bets.len() as int];
            &&& prediction == Prediction::Homewin ==> b.odd == o.homewin
            &&& prediction == Prediction::Awaywin ==> b.odd == o.awaywin
            &&& prediction == Prediction::Draw ==> b.odd == o.draw
            &&& prediction == Prediction::Over ==> b.odd == o.over
            &&& prediction == Prediction::Under ==> b.odd == o.under
            &&& b.prediction == prediction
            &&& b.amount == amount
            &&& reserved_of(t.balances, odds_owner) == reserved_of(s.balances, odds_owner)
                + winnable_spec(b.odd, amount)
            &&& free_of(t.balances, odds_owner) == free_of(s.balances, odds_owner) - winnable_spec(
                b.odd,
                amount,
            )
            &&& reserved_of(t.balances, bettor) == reserved_of(s.balances, bettor) + amount
            &&& free_of(t.balances, bettor) == free_of(s.balances, bettor) - amount
        }),
{
    law_place_bet_reserves_stakes(s, bettor, id_match, odds_owner, prediction, amount);
}

/// Odds are accepted exactly when each of the five, home win, away win,
/// draw, under and over, has a fractional part of at most 99 and an
/// integer part of at least 1. Odds with a fractional part above 99 are
/// refused with `OddFracPartOutOfBound`, and the state is left as it was.
pub proof fn law_odds_fractions_at_most_99(
    s: PalletState,
    who: AccountId,
    id_match: MatchId,
    odds: Odds,
)
    ensures
        set_odds_spec(s, Origin::Signed(who), id_match, odds).0 is Ok <==> {
            &&& odds.homewin.1 <= 99
            &&& odds.awaywin.1 <= 99
            &&& odds.draw.1 <= 99
            &&& odds.under.1 <= 99
            &&& odds.over.1 <= 99
            &&& odds.homewin.0 >= 1
            &&& odds.awaywin.0 >= 1
            &&& odds.draw.0 >= 1
            &&& odds.under.0 >= 1
            &&& odds.over.0 >= 1
        },
        (odds.homewin.1 > 99 || odds.awaywin.1 > 99 || odds.draw.1 > 99 || odds.under.1 > 99
            || odds.over.1 > 99) ==> set_odds_spec(s, Origin::Signed(who), id_match, odds) == (
        module_err(Error::OddFracPartOutOfBound), s),
        set_odds_spec(s, Origin::Signed(who), id_match, odds).0 is Ok ==> set_odds_spec(
            s,
            Origin::Signed(who),
            id_match,
            odds,
        ).1.odds[(id_match, who)] == odds,
{
}

/// A bet on stored odds of another account, on an open match, is accepted
/// whenever the bettor's free balance covers the amount and the
/// bookmaker's free balance covers the winnable amount, the whole free
/// balance included; the two accounts' funds must each fit in a
/// `Balance`, as they do when they are part of the total issuance.
pub proof fn law_bet_accepted_when_funds_suffice(
    s: PalletState,
    bettor: AccountId,
    id_match: MatchId,
    odds_owner: AccountId,
    prediction: Prediction,
    amount: Balance,
)
    requires
        s.odds.contains_key((id_match, odds_owner)),
        s.matches.contains_key(id_match),
        s.matches[id_match].status == MatchStatus::Open,
        bettor != odds_owner,
        free_of(s.balances, bettor) >= amount,
        free_of(s.balances, odds_owner) >= winnable_spec(
            odd_for(s.odds[(id_match, odds_owner)], prediction),
            amount,
        ),
        total_of(s.balances, bettor) <= u64::MAX,
        total_of(s.balances, odds_owner) <= u64::MAX,
    ensures
        place_bet_spec(s, Origin::Signed(bettor), id_match, odds_owner, prediction, amount).0 is Ok,
{
    let odd = odd_for(s.odds[(id_match, odds_owner)], prediction);
    lemma_winnable_fits(odd, amount);
    let w = winnable_spec(odd, amount) as u64;
    let (r1, b1) = reserve_spec(s.balances, bettor, amount);
    assert(r1 is Ok);
    assert(free_of(b1, odds_owner) == free_of(s.balances, odds_owner));
    assert(reserved_of(b1, odds_owner) == reserved_of(s.balances, odds_owner));
    let (r2, b2) = reserve_spec(b1, odds_owner, w);
    assert(r2 is Ok);
}

} // verus!
