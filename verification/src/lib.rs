//! A betting pallet: each account may act both as a bookmaker, offering odds
//! on a match, and as a bettor, placing bets on the odds of others.
//! Funds at stake are reserved in both accounts when a bet is placed and are
//! paid out to the winner when the bet is settled.

pub mod types;
pub mod payout;
pub mod store;
pub mod balances;
pub mod random;
pub mod pallet;
pub mod laws;
pub mod offchain;
pub mod price;

pub use pallet::{Call, Pallet};
pub use random::Randomness;
pub use types::{
    AccountId, Balance, Bet, BetStatus, DispatchError, Error, Event, Match, MatchId, MatchStatus,
    Odds, Origin, Prediction,
};
