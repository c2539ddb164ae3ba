//! The bets pallet: matches, the odds that bookmakers offer on them, and the
//! bets placed on those odds, with the calls that create, open, close and
//! settle them.
use vstd::prelude::*;
use crate::types::{
    AccountId, Balance, BalanceStatus, Bet, BetIndex, BetStatus, DispatchError, DispatchResult,
    Error, Event, Match, MatchId, MatchStatus, Odds, OddsId, Origin, Prediction, ensure_signed,
};
use crate::store::{Store, keys_unique, entries_map};
use crate::balances::{
    AccountData, Balances, free_of, reserve_spec, repatriate_spec, unreserve_spec,
    endowment_sum, endowed_map, endowed_ids,
};
use crate::payout::{
    bet_outcome, odd_for, prediction_wins, scores_fit, select_odd, winnable_amount, winnable_spec,
};
use crate::random::{Randomness, generate_random_score, random_score};

verus! {

/// What the pallet holds: its storage and the funds of the accounts.
pub struct PalletState {
    /// Matches by their id.
    pub matches: Map<MatchId, Match>,
    /// The odds of each bookmaker on each match.
    pub odds: Map<OddsId, Odds>,
    /// The bets, by their index.
    pub bets: Seq<Bet>,
    /// The number of bets placed so far.
    pub bet_count: u64,
    /// The funds of each account.
    pub balances: Map<AccountId, AccountData>,
    /// The events reported so far.
    pub events: Seq<Event>,
}

/// Whether the bets are indexed from 0 to the bet count.
pub open spec fn state_valid(s: PalletState) -> bool {
    s.bets.len() == s.bet_count
}

/// An error of the pallet.
pub open spec fn module_err(e: Error) -> DispatchResult {
    Err(DispatchError::Module(e))
}

/// A newly created match: open for bets, with no scores and no start.
pub open spec fn created_match() -> Match {
    Match { status: MatchStatus::Open, home_score: 0, away_score: 0, timestamp_start: 0 }
}

/// Whether every fractional part of `odds` is in the range 0 to 99.
pub open spec fn odds_frac_valid(odds: Odds) -> bool {
    odds.homewin.1 <= 99 && odds.awaywin.1 <= 99 && odds.draw.1 <= 99 && odds.under.1 <= 99
        && odds.over.1 <= 99
}

/// Whether every integer part of `odds` is at least 1.
pub open spec fn odds_int_valid(odds: Odds) -> bool {
    odds.homewin.0 > 0 && odds.awaywin.0 > 0 && odds.draw.0 > 0 && odds.under.0 > 0 && odds.over.0
        > 0
}

/// `set_odds`: a signed account offers `odds` on `id_match`, creating the
/// match, open for bets, if it does not exist yet; odds it offered before
/// on the match are replaced.
pub open spec fn set_odds_spec(s: PalletState, origin: Origin, id_match: MatchId, odds: Odds) -> (
    DispatchResult,
    PalletState,
) {
    match origin {
        Origin::Signed(who) => if !odds_frac_valid(odds) {
            (module_err(Error::OddFracPartOutOfBound), s)
        } else if !odds_int_valid(odds) {
            (module_err(Error::OddIntPartOutOfBound), s)
        } else {
            let created = !s.matches.contains_key(id_match);
            let matches = if created {
                s.matches.insert(id_match, created_match())
            } else {
                s.matches
            };
            let events = if created {
                s.events.push(Event::MatchCreated(id_match))
            } else {
                s.events
            };
            (
                Ok(()),
                PalletState {
                    matches,
                    odds: s.odds.insert((id_match, who), odds),
                    events: events.push(Event::OddsCreated((id_match, who))),
                    ..s
                },
            )
        },
        _ => (Err(DispatchError::BadOrigin), s),
    }
}

/// `set_match_start`: a locked match opens for bets, starting at `timestamp_start`.
pub open spec fn set_match_start_spec(
    s: PalletState,
    origin: Origin,
    id_match: MatchId,
    timestamp_start: u64,
) -> (DispatchResult, PalletState) {
    match origin {
        Origin::Signed(_) => if !s.matches.contains_key(id_match) {
            (module_err(Error::MatchNotExists), s)
        } else if s.matches[id_match].status != MatchStatus::Locked {
            (module_err(Error::MatchNotLocked), s)
        } else {
            let m = Match { status: MatchStatus::Open, timestamp_start, ..s.matches[id_match] };
            (
                Ok(()),
                PalletState {
                    matches: s.matches.insert(id_match, m),
                    events: s.events.push(Event::MatchOpened(id_match)),
                    ..s
                },
            )
        },
        _ => (Err(DispatchError::BadOrigin), s),
    }
}

/// `set_match_result`: an open match closes with the given scores.
pub open spec fn set_match_result_spec(
    s: PalletState,
    origin: Origin,
    id_match: MatchId,
    home_score: u32,
    away_score: u32,
) -> (DispatchResult, PalletState) {
    match origin {
        Origin::Signed(_) => if !s.matches.contains_key(id_match) {
            (module_err(Error::MatchNotExists), s)
        } else if s.matches[id_match].status != MatchStatus::Open {
            (module_err(Error::MatchClosed), s)
        } else {
            let m = Match {
                status: MatchStatus::Closed,
                home_score,
                away_score,
                ..s.matches[id_match]
            };
            (
                Ok(()),
                PalletState {
                    matches: s.matches.insert(id_match, m),
                    events: s.events.push(Event::MatchClosed(id_match)),
                    ..s
                },
            )
        },
        _ => (Err(DispatchError::BadOrigin), s),
    }
}

/// `place_bet`: a signed account bets `amount` on `prediction` at the odds
/// of `odds_owner` on an open match. The amount is reserved in the
/// bettor's account and the winnable amount in the bookmaker's; the bet is
/// stored under the next index. Any refusal leaves the state unchanged.
pub open spec fn place_bet_spec(
    s: PalletState,
    origin: Origin,
    id_match: MatchId,
    odds_owner: AccountId,
    prediction: Prediction,
    amount: Balance,
) -> (DispatchResult, PalletState) {
    match origin {
        Origin::Signed(bettor) => if !s.odds.contains_key((id_match, odds_owner)) {
            (module_err(Error::OddsNotExist), s)
        } else if !s.matches.contains_key(id_match) {
            (module_err(Error::MatchNotExists), s)
        } else if bettor == odds_owner {
            (module_err(Error::SameMatchOwner), s)
        } else if s.matches[id_match].status != MatchStatus::Open {
            (module_err(Error::MatchClosed), s)
        } else if free_of(s.balances, bettor) < amount {
            (module_err(Error::BetAccountInsufficientBalance), s)
        } else {
            let odd = odd_for(s.odds[(id_match, odds_owner)], prediction);
            let winnable = winnable_spec(odd, amount) as u64;
            if free_of(s.balances, odds_owner) < winnable {
                (module_err(Error::OddsAccountInsufficientBalance), s)
            } else {
                let (r1, b1) = reserve_spec(s.balances, bettor, amount);
                let (r2, b2) = reserve_spec(b1, odds_owner, winnable);
                if r1 is Err {
                    (r1, s)
                } else if r2 is Err {
                    (r2, s)
                } else {
                    let bet = Bet {
                        owner: bettor,
                        id_odds: (id_match, odds_owner),
                        prediction,
                        odd,
                        amount,
                        status: BetStatus::Open,
                    };
                    (
                        Ok(()),
                        PalletState {
                            bets: s.bets.push(bet),
                            bet_count: (s.bet_count + 1) as u64,
                            balances: b2,
                            events: s.events.push(Event::BetPlaced(s.bet_count)),
                            ..s
                        },
                    )
                }
            }
        },
        _ => (Err(DispatchError::BadOrigin), s),
    }
}

/// The transfers that settle a bet: when it is won, the winnable amount
/// goes from the bookmaker's reserve to the bettor and the stake from the
/// bettor's reserve to the bookmaker; when it is lost, the stake goes to
/// the bookmaker and the bookmaker's winnable amount is unreserved.
pub open spec fn payout_spec(
    m: Map<AccountId, AccountData>,
    bettor: AccountId,
    bookie: AccountId,
    amount: Balance,
    winnable: Balance,
    won: bool,
) -> (DispatchResult, Map<AccountId, AccountData>) {
    if won {
        let (r1, m1) = repatriate_spec(m, bookie, bettor, winnable, BalanceStatus::Free);
        let (r2, m2) = repatriate_spec(m1, bettor, bookie, amount, BalanceStatus::Free);
        match (r1, r2) {
            (Err(e), _) => (Err(e), m),
            (_, Err(e)) => (Err(e), m),
            _ => (Ok(()), m2),
        }
    } else {
        let (r1, m1) = repatriate_spec(m, bettor, bookie, amount, BalanceStatus::Free);
        let (_, m2) = unreserve_spec(m1, bookie, winnable);
        match r1 {
            Err(e) => (Err(e), m),
            _ => (Ok(()), m2),
        }
    }
}

/// Whether settling bet `id_bet` can add the scores of its match where it
/// comes to decide the bet: when a signed account settles an open bet on
/// over or under goals, on a closed or postponed match.
pub open spec fn settle_scores_fit(s: PalletState, origin: Origin, id_bet: BetIndex) -> bool {
    (origin is Signed && id_bet < s.bets.len()) ==> {
        let bet = s.bets[id_bet as int];
        let id_match = bet.id_odds.0;
        (bet.status == BetStatus::Open && s.matches.contains_key(id_match) && (
        s.matches[id_match].status == MatchStatus::Closed || s.matches[id_match].status
            == MatchStatus::Postponed) && (bet.prediction == Prediction::Over || bet.prediction
            == Prediction::Under)) ==> scores_fit(
            s.matches[id_match].home_score,
            s.matches[id_match].away_score,
        )
    }
}

/// Whether placing a bet can count it: the bet counter is below its
/// maximum, or the bet is refused before it is counted.
pub open spec fn place_bet_fits(
    s: PalletState,
    origin: Origin,
    id_match: MatchId,
    odds_owner: AccountId,
    prediction: Prediction,
    amount: Balance,
) -> bool {
    s.bet_count < u64::MAX || place_bet_spec(s, origin, id_match, odds_owner, prediction, amount).0 is Err
}

/// `settle_bet`: an open bet on a closed or postponed match is settled as
/// won or lost by the match's scores, and the funds at stake go to the
/// winner. Any refusal leaves the state unchanged.
pub open spec fn settle_bet_spec(s: PalletState, origin: Origin, id_bet: BetIndex) -> (
    DispatchResult,
    PalletState,
) {
    match origin {
        Origin::Signed(_) => if id_bet >= s.bets.len() {
            (module_err(Error::BetNotExists), s)
        } else {
            let bet = s.bets[id_bet as int];
            if bet.status != BetStatus::Open {
                (module_err(Error::BetSettled), s)
            } else if !s.matches.contains_key(bet.id_odds.0) {
                (module_err(Error::MatchNotExists), s)
            } else {
                let m = s.matches[bet.id_odds.0];
                if m.status != MatchStatus::Closed && m.status != MatchStatus::Postponed {
                    (module_err(Error::MatchOpen), s)
                } else {
                    let won = prediction_wins(bet.prediction, m.home_score, m.away_score);
                    let winnable = winnable_spec(bet.odd, bet.amount) as u64;
                    let (r, b) = payout_spec(
                        s.balances,
                        bet.owner,
                        bet.id_odds.1,
                        bet.amount,
                        winnable,
                        won,
                    );
                    if r is Err {
                        (r, s)
                    } else {
                        let status = if won {
                            BetStatus::Won
                        } else {
                            BetStatus::Lost
                        };
                        (
                            Ok(()),
                            PalletState {
                                bets: s.bets.update(id_bet as int, Bet { status, ..bet }),
                                balances: b,
                                events: s.events.push(Event::BetSettled(id_bet)),
                                ..s
                            },
                        )
                    }
                }
            }
        },
        _ => (Err(DispatchError::BadOrigin), s),
    }
}

/// A call to the pallet, with its arguments.
#[derive(Clone, Copy, Debug, PartialEq, Eq)]
pub enum Call {
    SetOdds { id_match: MatchId, odds: Odds },
    SetMatchStart { id_match: MatchId, timestamp_start: u64 },
    PlaceBet { id_match: MatchId, odds_owner: AccountId, prediction: Prediction, amount: Balance },
    SetMatchResult { id_match: MatchId, home_score: u32, away_score: u32 },
    SettleBet { id_bet: BetIndex },
    SetRandomMatchResult { id_match: MatchId },
}

/// Whether `call`, made by `origin` in state `s`, may answer `r` and leave
/// state `t`. Only random match results leave a choice: any scores from 0 to 8.
pub open spec fn step(s: PalletState, origin: Origin, call: Call, r: DispatchResult, t: PalletState) -> bool {
    match call {
        Call::SetOdds { id_match, odds } => (r, t) == set_odds_spec(s, origin, id_match, odds),
        Call::SetMatchStart { id_match, timestamp_start } => (r, t) == set_match_start_spec(
            s,
            origin,
            id_match,
            timestamp_start,
        ),
        Call::PlaceBet { id_match, odds_owner, prediction, amount } => (r, t) == place_bet_spec(
            s,
            origin,
            id_match,
            odds_owner,
            prediction,
            amount,
        ),
        Call::SetMatchResult { id_match, home_score, away_score } => (r, t)
            == set_match_result_spec(s, origin, id_match, home_score, away_score),
        Call::SettleBet { id_bet } => (r, t) == settle_bet_spec(s, origin, id_bet),
        Call::SetRandomMatchResult { id_match } => exists|home_score: u32, away_score: u32|
            home_score < 9 && away_score < 9 && (r, t) == set_match_result_spec(
                s,
                origin,
                id_match,
                home_score,
                away_score,
            ),
    }
}

/// Whether `call`, made by `origin` in state `s`, stays within what the
/// machine holds: an accepted bet must find the bet count below
/// `u64::MAX`, and a bet being settled on goals must find its match's
/// scores adding up within a `u32`.
pub open spec fn call_fits(s: PalletState, origin: Origin, call: Call) -> bool {
    match call {
        Call::PlaceBet { id_match, odds_owner, prediction, amount } => place_bet_fits(
            s,
            origin,
            id_match,
            odds_owner,
            prediction,
            amount,
        ),
        Call::SettleBet { id_bet } => settle_scores_fit(s, origin, id_bet),
        _ => true,
    }
}

/// The pallet: its storage, the funds of the accounts, and its id.
pub struct Pallet {
    matches: Store<MatchId, Match>,
    odds: Store<OddsId, Odds>,
    bets: Vec<Bet>,
    bet_count: u64,
    balances: Balances,
    events: Vec<Event>,
    pallet_id: [u8; 8],
}

impl View for Pallet {
    type V = PalletState;

    closed spec fn view(&self) -> PalletState {
        PalletState {
            matches: self.matches@,
            odds: self.odds@,
            bets: self.bets@,
            bet_count: self.bet_count,
            balances: self.balances@,
            events: self.events@,
        }
    }
}

impl Pallet {
    /// Whether the pallet's state is valid.
    pub open spec fn wf(&self) -> bool {
        state_valid(self@)
    }

    /// The pallet's id.
    pub closed spec fn id(&self) -> [u8; 8] {
        self.pallet_id
    }

    /// The total of all funds.
    pub closed spec fn issuance(&self) -> Balance {
        self.balances.issuance()
    }

    /// A pallet with id `pallet_id`, no matches, odds or bets, and the
    /// accounts of `endowed`, each with its amount free; no account may be
    /// endowed twice.
    pub fn new(pallet_id: [u8; 8], endowed: &Vec<(AccountId, Balance)>) -> (r: Pallet)
        requires
            endowed_ids(endowed@).no_duplicates(),
            endowment_sum(endowed@) <= u64::MAX,
        ensures
            r.wf(),
            r.id() == pallet_id,
            r@.matches == Map::<MatchId, Match>::empty(),
            r@.odds == Map::<OddsId, Odds>::empty(),
            r@.bets == Seq::<Bet>::empty(),
            r@.bet_count == 0,
            r@.balances == endowed_map(endowed@),
            r@.events == Seq::<Event>::empty(),
            r.issuance() == endowment_sum(endowed@),
    {
        Pallet {
            matches: Store::new(),
            odds: Store::new(),
            bets: Vec::new(),
            bet_count: 0,
            balances: Balances::new(endowed),
            events: Vec::new(),
            pallet_id,
        }
    }

    /// The funds of the accounts.
    pub fn balances(&self) -> (r: &Balances)
        ensures
            r@ == self@.balances,
            r.issuance() == self.issuance(),
    {
        &self.balances
    }

    /// The match `id_match`, if it exists.
    pub fn matches(&self, id_match: MatchId) -> (r: Option<Match>)
        ensures
            r == (if self@.matches.contains_key(id_match) {
                Some(self@.matches[id_match])
            } else {
                None
            }),
    {
        self.matches.get(&id_match)
    }

    /// The odds `id_odds`, if they exist.
    pub fn odds(&self, id_odds: OddsId) -> (r: Option<Odds>)
        ensures
            r == (if self@.odds.contains_key(id_odds) {
                Some(self@.odds[id_odds])
            } else {
                None
            }),
    {
        self.odds.get(&id_odds)
    }

    /// The bet `id_bet`, if it exists.
    pub fn bets(&self, id_bet: BetIndex) -> (r: Option<Bet>)
        requires
            self.wf(),
        ensures
            r == (if id_bet < self@.bets.len() {
                Some(self@.bets[id_bet as int])
            } else {
                None
            }),
    {
        let len = self.bets.len();
        if id_bet < len as u64 {
            Some(self.bets[id_bet as usize])
        } else {
            None
        }
    }

    /// The number of bets placed so far.
    pub fn bets_count(&self) -> (r: u64)
        ensures
            r == self@.bet_count,
    {
        self.bet_count
    }

    /// The events reported so far.
    pub fn events(&self) -> (r: &Vec<Event>)
        ensures
            r@ == self@.events,
    {
        &self.events
    }

    /// The ids of the matches that are locked, each once.
    pub fn locked_matches(&self) -> (r: Vec<MatchId>)
        ensures
            r@.no_duplicates(),
            forall|id: MatchId|
                #![auto]
                r@.contains(id) <==> (self@.matches.contains_key(id) && self@.matches[id].status
                    == MatchStatus::Locked),
    {
        let entries = self.matches.entries();
        let mut r: Vec<MatchId> = Vec::new();
        let ghost mut idx: Seq<int> = Seq::empty();
        let mut i: usize = 0;
        while i < entries.len()
            invariant
                i <= entries@.len(),
                keys_unique(entries@),
                self@.matches == entries_map(entries@),
                idx.len() == r@.len(),
                forall|a: int|
                    0 <= a < idx.len() ==> 0 <= #[trigger] idx[a] < i && r@[a] == entries@[idx[a]].0
                        && entries@[idx[a]].1.status == MatchStatus::Locked,
                forall|a: int, b: int| 0 <= a < b < idx.len() ==> #[trigger] idx[a] < #[trigger] idx[b],
                forall|j: int|
                    0 <= j < i && #[trigger] entries@[j].1.status == MatchStatus::Locked
                        ==> r@.contains(entries@[j].0),
            decreases entries@.len() - i,
        {
            let (id, m) = entries[i];
            if m.status == MatchStatus::Locked {
                let ghost r_before = r@;
                r.push(id);
                proof {
                    idx = idx.push(i as int);
                    assert forall|j: int|
                        0 <= j < i + 1 && #[trigger] entries@[j].1.status == MatchStatus::Locked
                            implies r@.contains(entries@[j].0) by {
                        if j < i {
                            let a = choose|a: int| 0 <= a < r_before.len() && r_before[a] == entries@[j].0;
                            assert(r@[a] == entries@[j].0);
                        } else {
                            assert(r@[r_before.len() as int] == entries@[j].0);
                        }
                    }
                }
            }
            i = i + 1;
        }
        proof {
            assert forall|a: int, b: int| 0 <= a < r@.len() && 0 <= b < r@.len() && a != b implies r@[a] != r@[b] by {
                if a < b {
                    assert(idx[a] < idx[b]);
                } else {
                    assert(idx[b] < idx[a]);
                }
            }
            assert forall|id: MatchId|
                #![auto]
                r@.contains(id) <==> (self@.matches.contains_key(id) && self@.matches[id].status
                    == MatchStatus::Locked) by {
                if r@.contains(id) {
                    let a = choose|a: int| 0 <= a < r@.len() && r@[a] == id;
                    assert(0 <= idx[a] < i);
                    crate::store::lemma_entry_in_map(entries@, idx[a]);
                }
                if self@.matches.contains_key(id) && self@.matches[id].status
                    == MatchStatus::Locked {
                    let j = choose|j: int| 0 <= j < entries@.len() && #[trigger] entries@[j].0 == id;
                    crate::store::lemma_entry_in_map(entries@, j);
                }
            }
        }
        r
    }

    /// Offers `odds` on the match `id_match`, creating the match, open for
    /// bets, if it does not exist yet.
    pub fn set_odds(&mut self, origin: Origin, id_match: MatchId, odds: Odds) -> (r: DispatchResult)
        requires
            old(self).wf(),
        ensures
            final(self).wf(),
            final(self).id() == old(self).id(),
            final(self).issuance() == old(self).issuance(),
            (r, final(self)@) == set_odds_spec(old(self)@, origin, id_match, odds),
    {
        let odds_owner = match ensure_signed(origin) {
            Ok(who) => who,
            Err(e) => return Err(e),
        };
        if !(odds.homewin.1 <= 99 && odds.awaywin.1 <= 99 && odds.draw.1 <= 99 && odds.under.1
            <= 99 && odds.over.1 <= 99) {
            return Err(DispatchError::Module(Error::OddFracPartOutOfBound));
        }
        if !(odds.homewin.0 > 0 && odds.awaywin.0 > 0 && odds.draw.0 > 0 && odds.under.0 > 0
            && odds.over.0 > 0) {
            return Err(DispatchError::Module(Error::OddIntPartOutOfBound));
        }
        if !self.matches.contains_key(&id_match) {
            let match_to_create = Match {
                status: MatchStatus::Open,
                home_score: 0,
                away_score: 0,
                timestamp_start: 0,
            };
            self.matches.insert(id_match, match_to_create);
            self.events.push(Event::MatchCreated(id_match));
        }
        self.odds.insert((id_match, odds_owner), odds);
        self.events.push(Event::OddsCreated((id_match, odds_owner)));
        Ok(())
    }

    /// Opens the locked match `id_match` for bets, starting at `timestamp_start`.
    pub fn set_match_start(&mut self, origin: Origin, id_match: MatchId, timestamp_start: u64) -> (r:
        DispatchResult)
        requires
            old(self).wf(),
        ensures
            final(self).wf(),
            final(self).id() == old(self).id(),
            final(self).issuance() == old(self).issuance(),
            (r, final(self)@) == set_match_start_spec(old(self)@, origin, id_match, timestamp_start),
    {
        if let Err(e) = ensure_signed(origin) {
            return Err(e);
        }
        let mut selected_match = match self.matches.get(&id_match) {
            Some(m) => m,
            None => return Err(DispatchError::Module(Error::MatchNotExists)),
        };
        if selected_match.status != MatchStatus::Locked {
            return Err(DispatchError::Module(Error::MatchNotLocked));
        }
        selected_match.status = MatchStatus::Open;
        selected_match.timestamp_start = timestamp_start;
        self.matches.insert(id_match, selected_match);
        self.events.push(Event::MatchOpened(id_match));
        Ok(())
    }

    /// Closes the open match `id_match` with the given scores.
    pub fn set_match_result(
        &mut self,
        origin: Origin,
        id_match: MatchId,
        home_score: u32,
        away_score: u32,
    ) -> (r: DispatchResult)
        requires
            old(self).wf(),
        ensures
            final(self).wf(),
            final(self).id() == old(self).id(),
            final(self).issuance() == old(self).issuance(),
            (r, final(self)@) == set_match_result_spec(
                old(self)@,
                origin,
                id_match,
                home_score,
                away_score,
            ),
    {
        if let Err(e) = ensure_signed(origin) {
            return Err(e);
        }
        let mut selected_match = match self.matches.get(&id_match) {
            Some(m) => m,
            None => return Err(DispatchError::Module(Error::MatchNotExists)),
        };
        if selected_match.status != MatchStatus::Open {
            return Err(DispatchError::Module(Error::MatchClosed));
        }
        selected_match.status = MatchStatus::Closed;
        selected_match.home_score = home_score;
        selected_match.away_score = away_score;
        self.matches.insert(id_match, selected_match);
        self.events.push(Event::MatchClosed(id_match));
        Ok(())
    }

    /// Closes the open match `id_match` with random scores from 0 to 8,
    /// drawn from `randomness`: the home score with seed 0, the away score
    /// with seed 1.
    pub fn set_random_match_result<R: Randomness>(
        &mut self,
        origin: Origin,
        id_match: MatchId,
        randomness: &R,
    ) -> (r: DispatchResult)
        requires
            old(self).wf(),
        ensures
            final(self).wf(),
            final(self).id() == old(self).id(),
            final(self).issuance() == old(self).issuance(),
            set_match_result_spec(old(self)@, origin, id_match, 0, 0).0 is Err ==> (r, final(self)@)
                == set_match_result_spec(old(self)@, origin, id_match, 0, 0),
            set_match_result_spec(old(self)@, origin, id_match, 0, 0).0 is Ok ==> exists|
                home_score: u32,
                away_score: u32,
            |
                home_score < 9 && away_score < 9 && random_score(
                    randomness,
                    old(self).id(),
                    0,
                    home_score,
                ) && random_score(randomness, old(self).id(), 1, away_score) && (r, final(self)@)
                    == set_match_result_spec(old(self)@, origin, id_match, home_score, away_score),
    {
        if let Err(e) = ensure_signed(origin) {
            proof {
                assert(set_match_result_spec(old(self)@, origin, id_match, 0, 0) == (
                    Err::<(), DispatchError>(e),
                    self@,
                ));
            }
            return Err(e);
        }
        let mut selected_match = match self.matches.get(&id_match) {
            Some(m) => m,
            None => {
                proof {
                    assert(set_match_result_spec(old(self)@, origin, id_match, 0, 0).0 == module_err(
                        Error::MatchNotExists,
                    ));
                }
                return Err(DispatchError::Module(Error::MatchNotExists));
            },
        };
        if selected_match.status != MatchStatus::Open {
            proof {
                assert(set_match_result_spec(old(self)@, origin, id_match, 0, 0).0 == module_err(
                    Error::MatchClosed,
                ));
            }
            return Err(DispatchError::Module(Error::MatchClosed));
        }
        let home_score = generate_random_score(randomness, self.pallet_id, 0);
        let away_score = generate_random_score(randomness, self.pallet_id, 1);
        selected_match.status = MatchStatus::Closed;
        selected_match.home_score = home_score;
        selected_match.away_score = away_score;
        self.matches.insert(id_match, selected_match);
        self.events.push(Event::MatchClosed(id_match));
        proof {
            assert((Ok::<(), DispatchError>(()), self@) == set_match_result_spec(
                old(self)@,
                origin,
                id_match,
                home_score,
                away_score,
            ));
        }
        Ok(())
    }

    /// Bets `amount` on `prediction` at the odds of `odds_owner` on the open
    /// match `id_match`: the amount is reserved in the bettor's account, the
    /// winnable amount in the bookmaker's, and the bet is stored under the
    /// next index.
    pub fn place_bet(
        &mut self,
        origin: Origin,
        id_match: MatchId,
        odds_owner: AccountId,
        prediction: Prediction,
        amount: Balance,
    ) -> (r: DispatchResult)
        requires
            old(self).wf(),
            place_bet_fits(old(self)@, origin, id_match, odds_owner, prediction, amount),
        ensures
            final(self).wf(),
            final(self).id() == old(self).id(),
            final(self).issuance() == old(self).issuance(),
            (r, final(self)@) == place_bet_spec(
                old(self)@,
                origin,
                id_match,
                odds_owner,
                prediction,
                amount,
            ),
    {
        let bet_owner = match ensure_signed(origin) {
            Ok(who) => who,
            Err(e) => return Err(e),
        };
        let bet_index = self.bet_count;
        let odds = match self.odds.get(&(id_match, odds_owner)) {
            Some(o) => o,
            None => return Err(DispatchError::Module(Error::OddsNotExist)),
        };
        let match_to_bet_on = match self.matches.get(&id_match) {
            Some(m) => m,
            None => return Err(DispatchError::Module(Error::MatchNotExists)),
        };
        if bet_owner == odds_owner {
            return Err(DispatchError::Module(Error::SameMatchOwner));
        }
        if match_to_bet_on.status != MatchStatus::Open {
            return Err(DispatchError::Module(Error::MatchClosed));
        }
        if !self.balances.can_reserve(bet_owner, amount) {
            return Err(DispatchError::Module(Error::BetAccountInsufficientBalance));
        }
        let odd = select_odd(&odds, prediction);
        let winnable = winnable_amount(odd, amount);
        if !self.balances.can_reserve(odds_owner, winnable) {
            return Err(DispatchError::Module(Error::OddsAccountInsufficientBalance));
        }
        let saved = self.balances.snapshot();
        if let Err(e) = self.balances.reserve(bet_owner, amount) {
            self.balances = saved;
            return Err(e);
        }
        if let Err(e) = self.balances.reserve(odds_owner, winnable) {
            self.balances = saved;
            return Err(e);
        }
        let bet = Bet {
            owner: bet_owner,
            id_odds: (id_match, odds_owner),
            prediction,
            odd,
            amount,
            status: BetStatus::Open,
        };
        self.bets.push(bet);
        self.bet_count = bet_index + 1;
        self.events.push(Event::BetPlaced(bet_index));
        Ok(())
    }

    /// Settles the open bet `id_bet` on a closed or postponed match: the bet
    /// is won or lost by the match's scores, and the funds at stake go to
    /// the winner.
    pub fn settle_bet(&mut self, origin: Origin, id_bet: BetIndex) -> (r: DispatchResult)
        requires
            old(self).wf(),
            settle_scores_fit(old(self)@, origin, id_bet),
        ensures
            final(self).wf(),
            final(self).id() == old(self).id(),
            final(self).issuance() == old(self).issuance(),
            (r, final(self)@) == settle_bet_spec(old(self)@, origin, id_bet),
    {
        if let Err(e) = ensure_signed(origin) {
            return Err(e);
        }
        let mut bet = match self.bets(id_bet) {
            Some(b) => b,
            None => return Err(DispatchError::Module(Error::BetNotExists)),
        };
        if bet.status != BetStatus::Open {
            return Err(DispatchError::Module(Error::BetSettled));
        }
        let selected_match = match self.matches.get(&bet.id_odds.0) {
            Some(m) => m,
            None => return Err(DispatchError::Module(Error::MatchNotExists)),
        };
        if !(selected_match.status == MatchStatus::Closed || selected_match.status
            == MatchStatus::Postponed) {
            return Err(DispatchError::Module(Error::MatchOpen));
        }
        let bet_status = bet_outcome(
            bet.prediction,
            selected_match.home_score,
            selected_match.away_score,
        );
        let winnable = winnable_amount(bet.odd, bet.amount);
        let odds_owner = bet.id_odds.1;
        let saved = self.balances.snapshot();
        if bet_status == BetStatus::Won {
            if let Err(e) = self.balances.repatriate_reserved(
                odds_owner,
                bet.owner,
                winnable,
                BalanceStatus::Free,
            ) {
                self.balances = saved;
                return Err(e);
            }
            if let Err(e) = self.balances.repatriate_reserved(
                bet.owner,
                odds_owner,
                bet.amount,
                BalanceStatus::Free,
            ) {
                self.balances = saved;
                return Err(e);
            }
        } else {
            if let Err(e) = self.balances.repatriate_reserved(
                bet.owner,
                odds_owner,
                bet.amount,
                BalanceStatus::Free,
            ) {
                self.balances = saved;
                return Err(e);
            }
            self.balances.unreserve(odds_owner, winnable);
        }
        bet.status = bet_status;
        let len = self.bets.len();
        assert(id_bet < len);
        self.bets.set(id_bet as usize, bet);
        self.events.push(Event::BetSettled(id_bet));
        Ok(())
    }

    /// Makes `call` on behalf of `origin`; random scores are drawn from `randomness`.
    pub fn dispatch<R: Randomness>(&mut self, origin: Origin, call: Call, randomness: &R) -> (r:
        DispatchResult)
        requires
            old(self).wf(),
            call_fits(old(self)@, origin, call),
        ensures
            final(self).wf(),
            final(self).id() == old(self).id(),
            final(self).issuance() == old(self).issuance(),
            step(old(self)@, origin, call, r, final(self)@),
    {
        match call {
            Call::SetOdds { id_match, odds } => self.set_odds(origin, id_match, odds),
            Call::SetMatchStart { id_match, timestamp_start } => self.set_match_start(
                origin,
                id_match,
                timestamp_start,
            ),
            Call::PlaceBet { id_match, odds_owner, prediction, amount } => self.place_bet(
                origin,
                id_match,
                odds_owner,
                prediction,
                amount,
            ),
            Call::SetMatchResult { id_match, home_score, away_score } => self.set_match_result(
                origin,
                id_match,
                home_score,
                away_score,
            ),
            Call::SettleBet { id_bet } => self.settle_bet(origin, id_bet),
            Call::SetRandomMatchResult { id_match } => self.set_random_match_result(
                origin,
                id_match,
                randomness,
            ),
        }
    }
}

} // verus!
