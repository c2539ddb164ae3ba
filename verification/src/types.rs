//! The data that the bets pallet keeps in storage, and the values its calls
//! take and give back.
use vstd::prelude::*;

verus! {

/// Id of an event category, such as a football league or an e-sport game.
pub type MatchCategoryId = u16;

/// Id which, given the category, specifies an event belonging to it.
pub type MatchIntraCategoryId = u64;

/// An index of a match.
pub type MatchId = (MatchCategoryId, MatchIntraCategoryId);

/// An account of the chain, by the integer that identifies it.
pub type AccountId = u64;

/// An amount of the chain's currency.
pub type Balance = u64;

/// The odds that one bookmaker offers on one match.
pub type OddsId = (MatchId, AccountId);

/// An index of a bet.
pub type BetIndex = u64;

/// An odd, as its integer part and its fractional part in hundredths.
pub type Odd = (u32, u8);

/// A match has an initial state (`Open`), in which bets are taken, and two
/// final states (`Closed`, `Postponed`). A `Locked` match waits for its
/// start to be set before it opens.
#[derive(Clone, Copy, Debug, PartialEq, Eq, Structural)]
pub enum MatchStatus {
    Locked,
    Open,
    Closed,
    Postponed,
}

/// A match on which bets are placed.
#[derive(Clone, Copy, Debug, PartialEq, Eq, Structural)]
pub struct Match {
    /// The status of the match: locked, open, closed or postponed.
    pub status: MatchStatus,
    pub home_score: u32,
    pub away_score: u32,
    pub timestamp_start: u64,
}

/// The odds that a bookmaker offers for each prediction on a match.
#[derive(Clone, Copy, Debug, PartialEq, Eq)]
pub struct Odds {
    pub homewin: Odd,
    pub awaywin: Odd,
    pub draw: Odd,
    pub under: Odd,
    pub over: Odd,
}

/// The result that a bettor predicts.
#[derive(Clone, Copy, Debug, PartialEq, Eq, Structural)]
pub enum Prediction {
    Homewin,
    Awaywin,
    Draw,
    Under,
    Over,
}

/// A bet is open until it is settled as lost or won.
#[derive(Clone, Copy, Debug, PartialEq, Eq, Structural)]
pub enum BetStatus {
    Open,
    Lost,
    Won,
}

/// A bet placed by a bettor on the odds of a bookmaker.
#[derive(Clone, Copy, Debug, PartialEq, Eq)]
pub struct Bet {
    /// The owner of the bet, the bettor's account.
    pub owner: AccountId,
    /// The match odds on which the bet is placed.
    pub id_odds: OddsId,
    /// Result prediction.
    pub prediction: Prediction,
    /// The odd at the moment of the bet (the odds may change later).
    pub odd: Odd,
    /// The amount wagered.
    pub amount: Balance,
    /// The status of the bet.
    pub status: BetStatus,
}

/// What the pallet reports of each call that succeeds.
#[derive(Clone, Copy, Debug, PartialEq, Eq)]
pub enum Event {
    /// A match was created.
    MatchCreated(MatchId),
    /// A match was opened.
    MatchOpened(MatchId),
    /// Some odds were created.
    OddsCreated(OddsId),
    /// A bet was placed.
    BetPlaced(BetIndex),
    /// A match was closed.
    MatchClosed(MatchId),
    /// A bet was settled.
    BetSettled(BetIndex),
}

/// The errors of the bets pallet.
#[derive(Clone, Copy, Debug, PartialEq, Eq, Structural)]
pub enum Error {
    /// A specific match does not exist, cannot place a bet or set match result.
    MatchNotExists,
    /// A specific match is not locked, cannot open it to odds.
    MatchNotLocked,
    /// A specific odds does not exist, cannot place a bet.
    OddsNotExist,
    /// Bet owner and match owner must be different.
    SameMatchOwner,
    /// Fractional part of an odd out of bound, it must be in the range 0 to 99.
    OddFracPartOutOfBound,
    /// Integer part of an odd out of bound, it must be at least 1.
    OddIntPartOutOfBound,
    /// Match not open for bets or updates.
    MatchClosed,
    /// Match open during a bet claim.
    MatchOpen,
    /// Insufficient free balance to offer a bet.
    OddsAccountInsufficientBalance,
    /// Insufficient free balance to place a bet.
    BetAccountInsufficientBalance,
    /// A specific bet does not exist.
    BetNotExists,
    /// The bet has already been settled.
    BetSettled,
    /// Payoff procedure failed.
    PayoffError,
}

/// The errors of the currency that the pallet reserves and moves funds with.
#[derive(Clone, Copy, Debug, PartialEq, Eq, Structural)]
pub enum BalancesError {
    /// The free balance is too low for the operation.
    InsufficientBalance,
    /// The beneficiary of a transfer has no account.
    DeadAccount,
    /// A balance would exceed the range of `Balance`.
    Overflow,
}

/// Why a call was refused.
#[derive(Clone, Copy, Debug, PartialEq, Eq, Structural)]
pub enum DispatchError {
    /// The call was not signed by an account.
    BadOrigin,
    /// An error of the bets pallet.
    Module(Error),
    /// An error of the currency.
    Balances(BalancesError),
    /// A value could not be converted.
    Other,
}

/// The result of a call.
pub type DispatchResult = Result<(), DispatchError>;

/// Who made a call.
#[derive(Clone, Copy, Debug, PartialEq, Eq, Structural)]
pub enum Origin {
    /// The chain itself.
    Root,
    /// An account that signed the call.
    Signed(AccountId),
    /// Nobody: an unsigned call.
    Unsigned,
}

/// Where a transfer of reserved funds places them in the beneficiary's account.
#[derive(Clone, Copy, Debug, PartialEq, Eq, Structural)]
pub enum BalanceStatus {
    Free,
    Reserved,
}

/// The account that signed a call, or `BadOrigin`.
pub fn ensure_signed(origin: Origin) -> (r: Result<AccountId, DispatchError>)
    ensures
        r == match origin {
            Origin::Signed(who) => Ok::<AccountId, DispatchError>(who),
            _ => Err(DispatchError::BadOrigin),
        },
{
    match origin {
        Origin::Signed(who) => Ok(who),
        _ => Err(DispatchError::BadOrigin),
    }
}

} // verus!
